//! System level device management.
//!
//! [`IoManager`] is responsible for managing all devices of a virtual
//! machine, registering IO resources callback, deregistering devices and
//! helping VM IO exit handling. It holds an MMIO bus and provides a default
//! implementation of [`MmioManager`].
//!
//! The VMM must first allocate unique resources (such as bus ranges), and
//! then call into this interface to register the devices with their
//! corresponding resources.

use vstd::prelude::*;

verus! {

use crate::bus;
use crate::bus::{
    access_fits, covers_addr, entries_wf, entry_ranges, lemma_entry_ranges_insert,
    lemma_overlaps_any_ranges, range_insertion_index, ranges_overlap_any, Bus, BusManager,
    BusRange,
};
use crate::resources::Resource;
use crate::VirtioMmioDevice;
use vstd::pervasive::cloned;
use vstd::pervasive::unreached;

/// Error type for [`IoManager`] usage.
#[derive(Debug, Eq, PartialEq, Structural)]
pub enum Error {
    /// Error during bus operation.
    Bus(bus::Error),
}

/// The number of address-range resources in `s`.
pub open spec fn mmio_range_count(s: Seq<Resource>) -> int
    decreases s.len(),
{
    if s.len() == 0 {
        0
    } else {
        mmio_range_count(s.drop_last()) + match s.last() {
            Resource::GuestAddressRange { .. } => 1int,
            _ => 0int,
        }
    }
}

/// Whether every address-range resource in `s` describes a valid range:
/// non-empty, with a last address that fits the address width.
pub open spec fn mmio_ranges_valid(s: Seq<Resource>) -> bool {
    forall|k: int|
        0 <= k < s.len() ==> match #[trigger] s[k] {
            Resource::GuestAddressRange { base, size } => size > 0 && base + size - 1 <= u64::MAX,
            _ => true,
        }
}

/// Whether `rg` contains the base address of some address-range resource in
/// `s`.
pub open spec fn covers_some_mmio_base(rg: BusRange, s: Seq<Resource>) -> bool {
    exists|k: int|
        0 <= k < s.len() && match #[trigger] s[k] {
            Resource::GuestAddressRange { base, .. } => rg.spec_contains(base),
            _ => false,
        }
}

/// Whether some entry of `s` associates exactly the range `(base, size)` with
/// a clone of `device`.
pub open spec fn registered_with<D: Clone>(
    s: Seq<(BusRange, D)>,
    base: u64,
    size: u64,
    device: D,
) -> bool {
    exists|j: int|
        0 <= j < s.len() && (#[trigger] s[j]).0.spec_base() == base && s[j].0.spec_size() == size
            && cloned(device, s[j].1)
}

/// Whether the entry `e` associates the range of some address-range resource
/// in `s` with a clone of `device`.
pub open spec fn entry_from_resources<D: Clone>(
    e: (BusRange, D),
    s: Seq<Resource>,
    device: D,
) -> bool {
    exists|k: int|
        0 <= k < s.len() && match #[trigger] s[k] {
            Resource::GuestAddressRange { base, size } => e.0.spec_base() == base
                && e.0.spec_size() == size && cloned(device, e.1),
            _ => false,
        }
}

/// The ranges on the MMIO bus after registering, in slice order, one entry
/// per address-range resource in `rs`, starting from `ranges`: `Ok` with the
/// final ranges when every such resource registers without overlap, `Err`
/// with the ranges registered up to that point at the first resource whose
/// range overlaps one already present (earlier insertions are kept, later
/// resources are not attempted). Resources of other kinds are skipped.
pub open spec fn spec_register_resources_ranges(ranges: Seq<BusRange>, rs: Seq<Resource>) -> Result<
    Seq<BusRange>,
    Seq<BusRange>,
>
    decreases rs.len(),
{
    if rs.len() == 0 {
        Ok(ranges)
    } else {
        match rs[0] {
            Resource::GuestAddressRange { base, size } => {
                let range = BusRange::spec_new(base, size);
                if ranges_overlap_any(ranges, range) {
                    Err(ranges)
                } else {
                    spec_register_resources_ranges(
                        ranges.insert(range_insertion_index(ranges, base), range),
                        rs.drop_first(),
                    )
                }
            },
            _ => spec_register_resources_ranges(ranges, rs.drop_first()),
        }
    }
}

proof fn lemma_registered_with_preserved<D: Clone>(
    prev: Seq<(BusRange, D)>,
    cur: Seq<(BusRange, D)>,
    base: u64,
    size: u64,
    device: D,
)
    requires
        registered_with(prev, base, size, device),
        forall|x: (BusRange, D)| prev.contains(x) ==> cur.contains(x),
    ensures
        registered_with(cur, base, size, device),
{
    let j = choose|j: int|
        0 <= j < prev.len() && (#[trigger] prev[j]).0.spec_base() == base && prev[j].0.spec_size()
            == size && cloned(device, prev[j].1);
    assert(prev.contains(prev[j]));
    assert(cur.contains(prev[j]));
    let i = choose|i: int| 0 <= i < cur.len() && cur[i] == prev[j];
    assert(cur[i].0.spec_base() == base);
}

proof fn lemma_mmio_range_count_step(s: Seq<Resource>, k: int)
    requires
        0 <= k < s.len(),
    ensures
        mmio_range_count(s.take(k + 1)) == mmio_range_count(s.take(k)) + match s[k] {
            Resource::GuestAddressRange { .. } => 1int,
            _ => 0int,
        },
{
    assert(s.take(k + 1).drop_last() =~= s.take(k));
    assert(s.take(k + 1).last() == s[k]);
}

proof fn lemma_contains_of_remove<T>(s: Seq<T>, k: int, x: T)
    requires
        0 <= k < s.len(),
        s.remove(k).contains(x),
    ensures
        s.contains(x),
{
    s.remove_ensures(k);
    let i = choose|i: int| 0 <= i < s.remove(k).len() && s.remove(k)[i] == x;
    if i < k {
        assert(s[i] == x);
    } else {
        assert(s[i + 1] == x);
    }
}

proof fn lemma_contains_after_remove<T>(s: Seq<T>, k: int, x: T)
    requires
        0 <= k < s.len(),
        s.contains(x),
        x != s[k],
    ensures
        s.remove(k).contains(x),
{
    s.remove_ensures(k);
    let i = choose|i: int| 0 <= i < s.len() && s[i] == x;
    if i < k {
        assert(s.remove(k)[i] == x);
    } else {
        assert(s.remove(k)[i - 1] == x);
    }
}

proof fn lemma_contains_after_insert<T>(s: Seq<T>, k: int, e: T, x: T)
    requires
        0 <= k <= s.len(),
        s.contains(x),
    ensures
        s.insert(k, e).contains(x),
{
    s.insert_ensures(k, e);
    let i = choose|i: int| 0 <= i < s.len() && s[i] == x;
    if i < k {
        assert(s.insert(k, e)[i] == x);
    } else {
        assert(s.insert(k, e)[i + 1] == x);
    }
}

proof fn lemma_covers_addr_of_remove<D>(s: Seq<(BusRange, D)>, k: int, b: u64)
    requires
        0 <= k < s.len(),
        covers_addr(s.remove(k), b),
    ensures
        covers_addr(s, b),
{
    s.remove_ensures(k);
    let i = choose|i: int|
        0 <= i < s.remove(k).len() && (#[trigger] s.remove(k)[i]).0.spec_contains(b);
    if i < k {
        assert(s[i].0.spec_contains(b));
    } else {
        assert(s[i + 1].0.spec_contains(b));
    }
}

/// Represents an object that provides MMIO manager operations.
pub trait MmioManager {
    /// Type of the objects that can be registered with this `MmioManager`.
    type D;

    /// The (range, device) associations of the managed MMIO bus, for
    /// specification purposes.
    spec fn mmio_entries(&self) -> Seq<(BusRange, Self::D)>;

    /// Return a reference to the device registered at `addr`, together with
    /// the associated range, if available.
    fn mmio_device(&self, addr: u64) -> (r: Option<(&BusRange, &Self::D)>)
        requires
            entries_wf(self.mmio_entries()),
        ensures
            match r {
                Some(p) => {
                    &&& exists|i: int|
                        0 <= i < self.mmio_entries().len() && #[trigger] self.mmio_entries()[i]
                            == (*p.0, *p.1)
                    &&& p.0.spec_contains(addr)
                },
                None => !covers_addr(self.mmio_entries(), addr),
            },
    ;

    /// Dispatch a read operation to the device registered at `addr`.
    ///
    /// Succeeds exactly when the whole access fits within one registered
    /// range; on failure, the bus error is propagated untranslated and the
    /// buffer is left untouched.
    fn mmio_read(&self, addr: u64, data: &mut Vec<u8>) -> (r: Result<(), bus::Error>)
        requires
            entries_wf(self.mmio_entries()),
        ensures
            r is Ok <==> (old(data).len() > 0 && addr + old(data).len() - 1 <= u64::MAX
                && access_fits(self.mmio_entries(), addr, old(data).len() as u64)),
            r matches Err(e) ==> {
                &&& *final(data) == *old(data)
                &&& (e == bus::Error::InvalidRange <==> (old(data).len() == 0 || addr + old(
                    data,
                ).len() - 1 > u64::MAX))
                &&& (e == bus::Error::DeviceNotFound <==> (old(data).len() > 0 && addr + old(
                    data,
                ).len() - 1 <= u64::MAX && !access_fits(
                    self.mmio_entries(),
                    addr,
                    old(data).len() as u64,
                )))
            },
    ;

    /// Dispatch a write operation to the device registered at `addr`.
    ///
    /// Succeeds exactly when the whole access fits within one registered
    /// range; on failure, the bus error is propagated untranslated and no
    /// partial write is performed.
    fn mmio_write(&self, addr: u64, data: &[u8]) -> (r: Result<(), bus::Error>)
        requires
            entries_wf(self.mmio_entries()),
        ensures
            r is Ok <==> (data@.len() > 0 && addr + data@.len() - 1 <= u64::MAX && access_fits(
                self.mmio_entries(),
                addr,
                data@.len() as u64,
            )),
            r matches Err(e) ==> {
                &&& (e == bus::Error::InvalidRange <==> (data@.len() == 0 || addr + data@.len() - 1
                    > u64::MAX))
                &&& (e == bus::Error::DeviceNotFound <==> (data@.len() > 0 && addr + data@.len() - 1
                    <= u64::MAX && !access_fits(self.mmio_entries(), addr, data@.len() as u64)))
            },
    ;

    /// Register the provided device with the specified range.
    fn register_mmio(&mut self, range: BusRange, device: Self::D) -> (r: Result<(), bus::Error>)
        requires
            entries_wf(old(self).mmio_entries()),
            range.wf(),
        ensures
            entries_wf(final(self).mmio_entries()),
            match r {
                Ok(()) => {
                    &&& !bus::overlaps_any(old(self).mmio_entries(), range)
                    &&& final(self).mmio_entries() == old(self).mmio_entries().insert(
                        bus::range_insertion_index(
                            bus::entry_ranges(old(self).mmio_entries()),
                            range.spec_base(),
                        ),
                        (range, device),
                    )
                },
                Err(e) => {
                    &&& e == bus::Error::DeviceOverlap
                    &&& bus::overlaps_any(old(self).mmio_entries(), range)
                    &&& final(self).mmio_entries() == old(self).mmio_entries()
                },
            },
    ;

    /// Deregister the device currently registered at `addr` together with the
    /// associated range.
    fn deregister_mmio(&mut self, addr: u64) -> (r: Option<(BusRange, Self::D)>)
        requires
            entries_wf(old(self).mmio_entries()),
        ensures
            entries_wf(final(self).mmio_entries()),
            match r {
                Some(p) => exists|k: int|
                    0 <= k < old(self).mmio_entries().len() && #[trigger] old(self).mmio_entries()[
                        k] == p && p.0.spec_contains(addr) && final(self).mmio_entries() == old(
                        self,
                    ).mmio_entries().remove(k),
                None => !covers_addr(old(self).mmio_entries(), addr) && final(self).mmio_entries()
                    == old(self).mmio_entries(),
            },
    ;
}

// This automatically provides an `MmioManager` implementation for types that
// already implement `BusManager` if their inner associated type implements
// `VirtioMmioDevice` as well.
impl<T> MmioManager for T where T: BusManager, T::D: VirtioMmioDevice {
    type D = <Self as BusManager>::D;

    open spec fn mmio_entries(&self) -> Seq<(BusRange, Self::D)> {
        self.bus_entries()
    }

    fn mmio_device(&self, addr: u64) -> Option<(&BusRange, &Self::D)> {
        self.bus().device(addr)
    }

    fn mmio_read(&self, addr: u64, data: &mut Vec<u8>) -> Result<(), bus::Error> {
        match self.bus().check_access(addr, data.len()) {
            Ok((range, device)) => {
                let base = range.base();
                device.virtio_mmio_read(base, addr - base, data);
                Ok(())
            },
            Err(e) => Err(e),
        }
    }

    fn mmio_write(&self, addr: u64, data: &[u8]) -> Result<(), bus::Error> {
        match self.bus().check_access(addr, data.len()) {
            Ok((range, device)) => {
                let base = range.base();
                device.virtio_mmio_write(base, addr - base, data);
                Ok(())
            },
            Err(e) => Err(e),
        }
    }

    fn register_mmio(&mut self, range: BusRange, device: Self::D) -> Result<(), bus::Error> {
        self.bus_mut().register(range, device)
    }

    fn deregister_mmio(&mut self, addr: u64) -> Option<(BusRange, Self::D)> {
        self.bus_mut().deregister(addr)
    }
}

/// System IO manager serving for all devices management and VM exit handling.
pub struct IoManager<D> {
    // Range mapping for VM exit mmio operations.
    mmio_bus: Bus<D>,
}

// Enables the automatic implementation of `MmioManager` for `IoManager`.
impl<D> BusManager for IoManager<D> {
    type D = D;

    closed spec fn bus_entries(&self) -> Seq<(BusRange, D)> {
        self.mmio_bus.entries()
    }

    fn bus(&self) -> &Bus<D> {
        &self.mmio_bus
    }

    fn bus_mut(&mut self) -> &mut Bus<D> {
        &mut self.mmio_bus
    }
}

impl<D> IoManager<D> {
    /// The (range, device) associations of the MMIO bus.
    pub open spec fn entries(self) -> Seq<(BusRange, D)> {
        self.bus_entries()
    }

    /// The manager invariant: the MMIO bus invariant.
    pub open spec fn wf(self) -> bool {
        entries_wf(self.entries())
    }

    /// Create a default IoManager with an empty bus.
    pub fn new() -> (r: Self)
        ensures
            r.entries() == Seq::<(BusRange, D)>::empty(),
            r.wf(),
    {
        IoManager { mmio_bus: Bus::new() }
    }
}

impl<D> Default for IoManager<D> {
    fn default() -> (r: Self)
        ensures
            r.entries() == Seq::<(BusRange, D)>::empty(),
            r.wf(),
    {
        IoManager { mmio_bus: Bus::new() }
    }
}

impl<D: VirtioMmioDevice + Clone> IoManager<D> {
    /// Register a new MMIO device with its allocated resources.
    /// The VMM is responsible for providing the allocated resources to the
    /// virtual device.
    ///
    /// One bus entry is registered per address-range resource, each holding a
    /// clone of `device`; resources of other kinds are ignored by this path.
    /// Succeeds exactly when every address-range resource, taken in slice
    /// order, registers without overlapping a range already on the bus (see
    /// [`spec_register_resources_ranges`]); at the first overlap the error is
    /// returned, the entries registered before it are kept, and the resources
    /// after it are not attempted. The resource addresses being registered
    /// must have been successfully allocated before, so every address-range
    /// resource is required to describe a valid range.
    pub fn register_mmio_resources(&mut self, device: D, resources: &[Resource]) -> (r: Result<
        (),
        Error,
    >)
        requires
            old(self).wf(),
            mmio_ranges_valid(resources@),
        ensures
            final(self).wf(),
            forall|i: int|
                0 <= i < old(self).entries().len() ==> final(self).entries().contains(
                    #[trigger] old(self).entries()[i],
                ),
            forall|j: int|
                0 <= j < final(self).entries().len() ==> old(self).entries().contains(
                    #[trigger] final(self).entries()[j],
                ) || entry_from_resources(final(self).entries()[j], resources@, device),
            r is Ok <==> spec_register_resources_ranges(
                entry_ranges(old(self).entries()),
                resources@,
            ) is Ok,
            match r {
                Ok(()) => {
                    &&& spec_register_resources_ranges(
                        entry_ranges(old(self).entries()),
                        resources@,
                    ) == Ok::<Seq<BusRange>, Seq<BusRange>>(entry_ranges(final(self).entries()))
                    &&& final(self).entries().len() == old(self).entries().len()
                        + mmio_range_count(resources@)
                    &&& forall|k: int|
                        0 <= k < resources@.len() ==> match #[trigger] resources@[k] {
                            Resource::GuestAddressRange { base, size } => registered_with(
                                final(self).entries(),
                                base,
                                size,
                                device,
                            ),
                            _ => true,
                        }
                },
                Err(e) => {
                    &&& e == (Error::Bus(bus::Error::DeviceOverlap))
                    &&& spec_register_resources_ranges(
                        entry_ranges(old(self).entries()),
                        resources@,
                    ) == Err::<Seq<BusRange>, Seq<BusRange>>(entry_ranges(final(self).entries()))
                },
            },
    {
        let mut k: usize = 0;
        proof {
            assert(resources@.take(0) =~= Seq::<Resource>::empty());
            assert(resources@.skip(0) =~= resources@);
        }
        while k < resources.len()
            invariant
                self.wf(),
                mmio_ranges_valid(resources@),
                k <= resources@.len(),
                self.entries().len() == old(self).entries().len() + mmio_range_count(
                    resources@.take(k as int),
                ),
                forall|i: int|
                    0 <= i < old(self).entries().len() ==> self.entries().contains(
                        #[trigger] old(self).entries()[i],
                    ),
                forall|kk: int|
                    0 <= kk < k ==> match #[trigger] resources@[kk] {
                        Resource::GuestAddressRange { base, size } => registered_with(
                            self.entries(),
                            base,
                            size,
                            device,
                        ),
                        _ => true,
                    },
                forall|j: int|
                    0 <= j < self.entries().len() ==> old(self).entries().contains(
                        #[trigger] self.entries()[j],
                    ) || entry_from_resources(
                        self.entries()[j],
                        resources@.take(k as int),
                        device,
                    ),
                spec_register_resources_ranges(entry_ranges(old(self).entries()), resources@)
                    == spec_register_resources_ranges(
                    entry_ranges(self.entries()),
                    resources@.skip(k as int),
                ),
            decreases resources@.len() - k,
        {
            let ghost prev = self.entries();
            proof {
                lemma_mmio_range_count_step(resources@, k as int);
                assert(resources@.skip(k as int)[0] == resources@[k as int]);
                assert(resources@.skip(k as int).drop_first() =~= resources@.skip(k as int + 1));
            }
            match &resources[k] {
                Resource::GuestAddressRange { base, size } => {
                    let range = match BusRange::new(*base, *size) {
                        Ok(rg) => rg,
                        Err(_) => unreached(),
                    };
                    let dev = device.clone();
                    match self.register_mmio(range, dev) {
                        Ok(()) => {
                            proof {
                                let pos = range_insertion_index(
                                    entry_ranges(prev),
                                    range.spec_base(),
                                );
                                bus::lemma_range_insertion_index_bounds(
                                    entry_ranges(prev),
                                    range.spec_base(),
                                );
                                prev.insert_ensures(pos, (range, dev));
                                assert(self.entries()[pos] == (range, dev));
                                assert(self.entries().contains((range, dev)));
                                assert forall|x: (BusRange, D)| prev.contains(
                                    x,
                                ) implies self.entries().contains(x) by {
                                    lemma_contains_after_insert(prev, pos, (range, dev), x);
                                }
                                assert(cloned(device, dev));
                                assert(registered_with(self.entries(), *base, *size, device));
                                assert forall|kk: int|
                                    0 <= kk < k as int + 1 implies match #[trigger] resources@[kk] {
                                    Resource::GuestAddressRange { base: b2, size: s2 } => registered_with(
                                        self.entries(),
                                        b2,
                                        s2,
                                        device,
                                    ),
                                    _ => true,
                                } by {
                                    if kk < k as int {
                                        match resources@[kk] {
                                            Resource::GuestAddressRange { base: b2, size: s2 } => {
                                                lemma_registered_with_preserved(
                                                    prev,
                                                    self.entries(),
                                                    b2,
                                                    s2,
                                                    device,
                                                );
                                            },
                                            _ => {},
                                        }
                                    }
                                }
                                assert forall|j: int|
                                    0 <= j < self.entries().len() implies old(
                                    self,
                                ).entries().contains(#[trigger] self.entries()[j])
                                    || entry_from_resources(
                                    self.entries()[j],
                                    resources@.take(k as int + 1),
                                    device,
                                ) by {
                                    if self.entries()[j] == (range, dev) {
                                        assert(resources@.take(k as int + 1)[k as int]
                                            == resources@[k as int]);
                                        assert(entry_from_resources(
                                            (range, dev),
                                            resources@.take(k as int + 1),
                                            device,
                                        ));
                                    } else {
                                        let j0: int = if j < pos {
                                            j
                                        } else {
                                            j - 1
                                        };
                                        assert(self.entries()[j] == prev[j0]);
                                        if entry_from_resources(
                                            prev[j0],
                                            resources@.take(k as int),
                                            device,
                                        ) {
                                            let w = choose|w: int|
                                                0 <= w < resources@.take(k as int).len()
                                                    && match #[trigger] resources@.take(
                                                    k as int,
                                                )[w] {
                                                    Resource::GuestAddressRange {
                                                        base: b,
                                                        size: s,
                                                    } => prev[j0].0.spec_base() == b
                                                        && prev[j0].0.spec_size() == s && cloned(
                                                        device,
                                                        prev[j0].1,
                                                    ),
                                                    _ => false,
                                                };
                                            assert(resources@.take(k as int + 1)[w]
                                                == resources@.take(k as int)[w]);
                                            assert(entry_from_resources(
                                                prev[j0],
                                                resources@.take(k as int + 1),
                                                device,
                                            ));
                                        }
                                    }
                                }
                                lemma_overlaps_any_ranges(prev, range);
                                lemma_entry_ranges_insert(prev, pos, (range, dev));
                                assert(spec_register_resources_ranges(
                                    entry_ranges(prev),
                                    resources@.skip(k as int),
                                ) == spec_register_resources_ranges(
                                    entry_ranges(self.entries()),
                                    resources@.skip(k as int + 1),
                                ));
                            }
                        },
                        Err(e) => {
                            proof {
                                lemma_overlaps_any_ranges(prev, range);
                                assert(spec_register_resources_ranges(
                                    entry_ranges(prev),
                                    resources@.skip(k as int),
                                ) == Err::<Seq<BusRange>, Seq<BusRange>>(entry_ranges(prev)));
                            }
                            return Err(Error::Bus(e));
                        },
                    }
                },
                _ => {
                    proof {
                        assert forall|j: int|
                            0 <= j < self.entries().len() implies old(self).entries().contains(
                            #[trigger] self.entries()[j],
                        ) || entry_from_resources(
                            self.entries()[j],
                            resources@.take(k as int + 1),
                            device,
                        ) by {
                            if entry_from_resources(
                                self.entries()[j],
                                resources@.take(k as int),
                                device,
                            ) {
                                let w = choose|w: int|
                                    0 <= w < resources@.take(k as int).len() && match
                                        #[trigger] resources@.take(k as int)[w] {
                                        Resource::GuestAddressRange { base: b, size: s } => self
                                            .entries()[j].0.spec_base() == b && self.entries()[
                                        j].0.spec_size() == s && cloned(device, self.entries()[j].1),
                                        _ => false,
                                    };
                                assert(resources@.take(k as int + 1)[w] == resources@.take(
                                    k as int,
                                )[w]);
                            }
                        }
                    }
                },
            }
            k += 1;
        }
        proof {
            assert(resources@.take(resources@.len() as int) =~= resources@);
            assert(resources@.skip(resources@.len() as int) =~= Seq::<Resource>::empty());
        }
        Ok(())
    }

    /// Register a new MMIO device with its allocated resources.
    /// The VMM is responsible for providing the allocated resources to the
    /// virtual device. Behaves exactly as
    /// [`IoManager::register_mmio_resources`].
    pub fn register_resources(&mut self, device: D, resources: &[Resource]) -> (r: Result<
        (),
        Error,
    >)
        requires
            old(self).wf(),
            mmio_ranges_valid(resources@),
        ensures
            final(self).wf(),
            forall|i: int|
                0 <= i < old(self).entries().len() ==> final(self).entries().contains(
                    #[trigger] old(self).entries()[i],
                ),
            forall|j: int|
                0 <= j < final(self).entries().len() ==> old(self).entries().contains(
                    #[trigger] final(self).entries()[j],
                ) || entry_from_resources(final(self).entries()[j], resources@, device),
            r is Ok <==> spec_register_resources_ranges(
                entry_ranges(old(self).entries()),
                resources@,
            ) is Ok,
            match r {
                Ok(()) => {
                    &&& spec_register_resources_ranges(
                        entry_ranges(old(self).entries()),
                        resources@,
                    ) == Ok::<Seq<BusRange>, Seq<BusRange>>(entry_ranges(final(self).entries()))
                    &&& final(self).entries().len() == old(self).entries().len()
                        + mmio_range_count(resources@)
                    &&& forall|k: int|
                        0 <= k < resources@.len() ==> match #[trigger] resources@[k] {
                            Resource::GuestAddressRange { base, size } => registered_with(
                                final(self).entries(),
                                base,
                                size,
                                device,
                            ),
                            _ => true,
                        }
                },
                Err(e) => {
                    &&& e == (Error::Bus(bus::Error::DeviceOverlap))
                    &&& spec_register_resources_ranges(
                        entry_ranges(old(self).entries()),
                        resources@,
                    ) == Err::<Seq<BusRange>, Seq<BusRange>>(entry_ranges(final(self).entries()))
                },
            },
    {
        self.register_mmio_resources(device, resources)
    }

    /// Deregister a device from `IoManager`, e.g. users specified removing.
    /// The VMM pre-fetches the device's assigned resources and is responsible
    /// for freeing them. Returns the number of deregistered ranges.
    ///
    /// For each address-range resource the association whose range contains
    /// that resource's base address is removed; descriptors matching nothing
    /// are silently skipped, not errors.
    pub fn deregister_resources(&mut self, resources: &[Resource]) -> (count: usize)
        requires
            old(self).wf(),
        ensures
            final(self).wf(),
            final(self).entries().len() + count == old(self).entries().len(),
            forall|j: int|
                0 <= j < final(self).entries().len() ==> old(self).entries().contains(
                    #[trigger] final(self).entries()[j],
                ),
            forall|i: int|
                0 <= i < old(self).entries().len() && !covers_some_mmio_base(
                    (#[trigger] old(self).entries()[i]).0,
                    resources@,
                ) ==> final(self).entries().contains(old(self).entries()[i]),
            forall|k: int|
                0 <= k < resources@.len() ==> match #[trigger] resources@[k] {
                    Resource::GuestAddressRange { base, .. } => !covers_addr(
                        final(self).entries(),
                        base,
                    ),
                    _ => true,
                },
    {
        let mut count: usize = 0;
        let mut k: usize = 0;
        while k < resources.len()
            invariant
                self.wf(),
                k <= resources@.len(),
                count <= k,
                self.entries().len() + count == old(self).entries().len(),
                forall|j: int|
                    0 <= j < self.entries().len() ==> old(self).entries().contains(
                        #[trigger] self.entries()[j],
                    ),
                forall|i: int|
                    0 <= i < old(self).entries().len() && !covers_some_mmio_base(
                        (#[trigger] old(self).entries()[i]).0,
                        resources@.take(k as int),
                    ) ==> self.entries().contains(old(self).entries()[i]),
                forall|kk: int|
                    0 <= kk < k ==> match #[trigger] resources@[kk] {
                        Resource::GuestAddressRange { base, .. } => !covers_addr(
                            self.entries(),
                            base,
                        ),
                        _ => true,
                    },
            decreases resources@.len() - k,
        {
            let ghost prev = self.entries();
            match &resources[k] {
                Resource::GuestAddressRange { base, .. } => {
                    match self.deregister_mmio(*base) {
                        Some(_) => {
                            count += 1;
                        },
                        None => {},
                    }
                    proof {
                        lemma_deregister_resources_step::<D>(
                            old(self).entries(),
                            prev,
                            self.entries(),
                            resources@,
                            k as int,
                            *base,
                        );
                    }
                },
                _ => {
                    proof {
                        lemma_take_step_no_base::<D>(old(self).entries(), resources@, k as int);
                    }
                },
            }
            k += 1;
        }
        proof {
            assert(resources@.take(resources@.len() as int) =~= resources@);
        }
        count
    }
}

/// Inductive step of [`IoManager::deregister_resources`] for an address-range
/// resource at position `k` with base address `b`: `prev` is the bus before
/// the step, `cur` the bus after it, `orig` the bus at the start of the loop.
proof fn lemma_deregister_resources_step<D>(
    orig: Seq<(BusRange, D)>,
    prev: Seq<(BusRange, D)>,
    cur: Seq<(BusRange, D)>,
    resources: Seq<Resource>,
    k: int,
    b: u64,
)
    requires
        0 <= k < resources.len(),
        resources[k] matches Resource::GuestAddressRange { base, .. } && base == b,
        entries_wf(prev),
        forall|j: int| 0 <= j < prev.len() ==> orig.contains(#[trigger] prev[j]),
        forall|i: int|
            0 <= i < orig.len() && !covers_some_mmio_base((#[trigger] orig[i]).0, resources.take(k))
                ==> prev.contains(orig[i]),
        forall|kk: int|
            0 <= kk < k ==> match #[trigger] resources[kk] {
                Resource::GuestAddressRange { base, .. } => !covers_addr(prev, base),
                _ => true,
            },
        ({
            ||| (exists|rk: int|
                0 <= rk < prev.len() && (#[trigger] prev[rk]).0.spec_contains(b) && cur
                    == prev.remove(rk))
            ||| (!covers_addr(prev, b) && cur == prev)
        }),
    ensures
        forall|j: int| 0 <= j < cur.len() ==> orig.contains(#[trigger] cur[j]),
        forall|i: int|
            0 <= i < orig.len() && !covers_some_mmio_base(
                (#[trigger] orig[i]).0,
                resources.take(k + 1),
            ) ==> cur.contains(orig[i]),
        forall|kk: int|
            0 <= kk < k + 1 ==> match #[trigger] resources[kk] {
                Resource::GuestAddressRange { base, .. } => !covers_addr(cur, base),
                _ => true,
            },
{
    assert(resources.take(k + 1)[k] == resources[k]);
    assert forall|i: int| 0 <= i < k implies resources.take(k + 1)[i] == resources.take(k)[i] by {}
    if covers_addr(prev, b) {
        let rk = choose|rk: int|
            0 <= rk < prev.len() && (#[trigger] prev[rk]).0.spec_contains(b) && cur == prev.remove(
                rk,
            );
        prev.remove_ensures(rk);
        // No new entries.
        assert forall|j: int| 0 <= j < cur.len() implies orig.contains(#[trigger] cur[j]) by {
            lemma_contains_of_remove(prev, rk, cur[j]);
        }
        // Entries covering no processed base survive.
        assert forall|i: int|
            0 <= i < orig.len() && !covers_some_mmio_base(
                (#[trigger] orig[i]).0,
                resources.take(k + 1),
            ) implies cur.contains(orig[i]) by {
            assert(!covers_some_mmio_base(orig[i].0, resources.take(k)));
            assert(!orig[i].0.spec_contains(b)) by {
                if orig[i].0.spec_contains(b) {
                    assert(match resources.take(k + 1)[k] {
                        Resource::GuestAddressRange { base, .. } => orig[i].0.spec_contains(base),
                        _ => false,
                    });
                }
            }
            assert(orig[i] != prev[rk]);
            lemma_contains_after_remove(prev, rk, orig[i]);
        }
        // Every processed base is uncovered.
        assert forall|kk: int|
            0 <= kk < k + 1 implies match #[trigger] resources[kk] {
            Resource::GuestAddressRange { base, .. } => !covers_addr(cur, base),
            _ => true,
        } by {
            match resources[kk] {
                Resource::GuestAddressRange { base, .. } => {
                    if kk < k {
                        if covers_addr(cur, base) {
                            lemma_covers_addr_of_remove(prev, rk, base);
                        }
                    } else {
                        crate::bus::lemma_removed_range_uncovered(prev, rk, b);
                    }
                },
                _ => {},
            }
        }
    } else {
        assert(cur == prev);
        assert forall|i: int|
            0 <= i < orig.len() && !covers_some_mmio_base(
                (#[trigger] orig[i]).0,
                resources.take(k + 1),
            ) implies cur.contains(orig[i]) by {
            assert(!covers_some_mmio_base(orig[i].0, resources.take(k)));
        }
    }
}

/// Inductive step of [`IoManager::deregister_resources`] for a resource that
/// is not an address range: nothing changes, and the set of bases covered by
/// the first `k + 1` resources equals that of the first `k`.
proof fn lemma_take_step_no_base<D>(orig: Seq<(BusRange, D)>, resources: Seq<Resource>, k: int)
    requires
        0 <= k < resources.len(),
        !(resources[k] matches Resource::GuestAddressRange { .. }),
    ensures
        forall|rg: BusRange|
            covers_some_mmio_base(rg, resources.take(k + 1)) == covers_some_mmio_base(
                rg,
                resources.take(k),
            ),
{
    assert forall|rg: BusRange|
        covers_some_mmio_base(rg, resources.take(k + 1)) == covers_some_mmio_base(
            rg,
            resources.take(k),
        ) by {
        assert(resources.take(k + 1)[k] == resources[k]);
        assert forall|i: int| 0 <= i < k implies resources.take(k + 1)[i] == resources.take(
            k,
        )[i] by {}
        if covers_some_mmio_base(rg, resources.take(k)) {
            let w = choose|w: int|
                0 <= w < resources.take(k).len() && match #[trigger] resources.take(k)[w] {
                    Resource::GuestAddressRange { base, .. } => rg.spec_contains(base),
                    _ => false,
                };
            assert(match resources.take(k + 1)[w] {
                Resource::GuestAddressRange { base, .. } => rg.spec_contains(base),
                _ => false,
            });
        }
        if covers_some_mmio_base(rg, resources.take(k + 1)) {
            let w = choose|w: int|
                0 <= w < resources.take(k + 1).len() && match #[trigger] resources.take(k + 1)[w] {
                    Resource::GuestAddressRange { base, .. } => rg.spec_contains(base),
                    _ => false,
                };
            assert(w != k);
            assert(match resources.take(k)[w] {
                Resource::GuestAddressRange { base, .. } => rg.spec_contains(base),
                _ => false,
            });
        }
    }
}

} // verus!
