//! Abstractions for modelling an I/O bus.
//!
//! A bus is seen here as a mapping between disjoint intervals (ranges) from
//! an address space and objects (devices) associated with them. A single
//! device can be registered with multiple ranges, but no two ranges can
//! overlap, regardless of their device associations.
//!
//! The mapping is kept as a vector sorted by range base address, so point
//! lookup is a binary search for the entry with the greatest base that is at
//! most the address, followed by a containment check; because the registered
//! ranges never overlap, at most one of them can contain any given address.

use vstd::prelude::*;

mod range;

pub use range::BusRange;

verus! {

/// Errors encountered during bus operations.
#[derive(Debug, Eq, PartialEq, Structural)]
pub enum Error {
    /// No device is associated with the specified address or range.
    DeviceNotFound,
    /// Specified range overlaps an already registered range.
    DeviceOverlap,
    /// Access with invalid length attempted.
    InvalidAccessLength(usize),
    /// Invalid range provided (either zero-sized, or last address overflows).
    InvalidRange,
}

/// The bus invariant over a sequence of (range, device) associations: every
/// range is well formed, and the ranges are sorted by base address with one
/// range ending strictly before the next begins. Disjointness of all pairs of
/// ranges follows; see [`lemma_entries_disjoint`].
pub open spec fn entries_wf<D>(s: Seq<(BusRange, D)>) -> bool {
    &&& forall|i: int| 0 <= i < s.len() ==> (#[trigger] s[i]).0.wf()
    &&& forall|i: int, j: int|
        0 <= i < j < s.len() ==> (#[trigger] s[i]).0.spec_last() < (#[trigger] s[j]).0.spec_base()
}

/// Whether some entry's range contains the address `addr`.
pub open spec fn covers_addr<D>(s: Seq<(BusRange, D)>, addr: u64) -> bool {
    exists|i: int| 0 <= i < s.len() && (#[trigger] s[i]).0.spec_contains(addr)
}

/// Whether an access of `len` addresses starting at `addr` fits entirely
/// within a single entry's range.
pub open spec fn access_fits<D>(s: Seq<(BusRange, D)>, addr: u64, len: u64) -> bool {
    exists|i: int|
        0 <= i < s.len() && (#[trigger] s[i]).0.spec_contains(addr) && addr + len - 1
            <= s[i].0.spec_last()
}

/// Whether `range` overlaps some entry's range.
pub open spec fn overlaps_any<D>(s: Seq<(BusRange, D)>, range: BusRange) -> bool {
    exists|i: int| 0 <= i < s.len() && (#[trigger] s[i]).0.spec_overlaps(range)
}

/// The ranges of the entries, in order.
pub open spec fn entry_ranges<D>(s: Seq<(BusRange, D)>) -> Seq<BusRange> {
    s.map_values(|e: (BusRange, D)| e.0)
}

/// Whether `range` overlaps some range in `ranges`.
pub open spec fn ranges_overlap_any(ranges: Seq<BusRange>, range: BusRange) -> bool {
    exists|i: int| 0 <= i < ranges.len() && (#[trigger] ranges[i]).spec_overlaps(range)
}

/// `overlaps_any` on entries agrees with `ranges_overlap_any` on their
/// ranges.
pub proof fn lemma_overlaps_any_ranges<D>(s: Seq<(BusRange, D)>, range: BusRange)
    ensures
        overlaps_any(s, range) == ranges_overlap_any(entry_ranges(s), range),
{
    if overlaps_any(s, range) {
        let i = choose|i: int| 0 <= i < s.len() && (#[trigger] s[i]).0.spec_overlaps(range);
        assert(entry_ranges(s)[i] == s[i].0);
        assert(ranges_overlap_any(entry_ranges(s), range));
    }
    if ranges_overlap_any(entry_ranges(s), range) {
        let i = choose|i: int|
            0 <= i < entry_ranges(s).len() && (#[trigger] entry_ranges(s)[i]).spec_overlaps(range);
        assert(entry_ranges(s)[i] == s[i].0);
        assert(overlaps_any(s, range));
    }
}

/// Mapping entries to their ranges commutes with insertion.
pub proof fn lemma_entry_ranges_insert<D>(s: Seq<(BusRange, D)>, k: int, e: (BusRange, D))
    requires
        0 <= k <= s.len(),
    ensures
        entry_ranges(s.insert(k, e)) == entry_ranges(s).insert(k, e.0),
{
    s.insert_ensures(k, e);
    entry_ranges(s).insert_ensures(k, e.0);
    assert forall|i: int|
        0 <= i < s.len() + 1 implies #[trigger] entry_ranges(s.insert(k, e))[i] == entry_ranges(
        s,
    ).insert(k, e.0)[i] by {
        assert(entry_ranges(s.insert(k, e))[i] == s.insert(k, e)[i].0);
        if i < k {
            assert(s.insert(k, e)[i] == s[i]);
            assert(entry_ranges(s)[i] == s[i].0);
        } else if i == k {
            assert(s.insert(k, e)[i] == e);
        } else {
            assert(s.insert(k, e)[i] == s[i - 1]);
            assert(entry_ranges(s)[i - 1] == s[i - 1].0);
        }
    }
    assert(entry_ranges(s.insert(k, e)) =~= entry_ranges(s).insert(k, e.0));
}

/// The index at which a range with base address `base` belongs in the
/// base-sorted `ranges`: the number of ranges whose base lies below it.
pub open spec fn range_insertion_index(ranges: Seq<BusRange>, base: u64) -> int
    decreases ranges.len(),
{
    if ranges.len() == 0 {
        0
    } else if ranges[0].spec_base() < base {
        1 + range_insertion_index(ranges.drop_first(), base)
    } else {
        0
    }
}

/// The insertion index lies within the sequence bounds.
pub proof fn lemma_range_insertion_index_bounds(ranges: Seq<BusRange>, base: u64)
    ensures
        0 <= range_insertion_index(ranges, base) <= ranges.len(),
    decreases ranges.len(),
{
    if ranges.len() > 0 && ranges[0].spec_base() < base {
        lemma_range_insertion_index_bounds(ranges.drop_first(), base);
    }
}

/// In a sequence of ranges where everything below position `pos` has a base
/// under `base` and everything from `pos` on has a base at least `base`,
/// `pos` is the insertion index for `base`.
pub proof fn lemma_range_insertion_index(ranges: Seq<BusRange>, base: u64, pos: int)
    requires
        0 <= pos <= ranges.len(),
        forall|i: int| 0 <= i < pos ==> (#[trigger] ranges[i]).spec_base() < base,
        forall|i: int| pos <= i < ranges.len() ==> (#[trigger] ranges[i]).spec_base() >= base,
    ensures
        range_insertion_index(ranges, base) == pos,
    decreases ranges.len(),
{
    if ranges.len() == 0 {
    } else if ranges[0].spec_base() < base {
        lemma_range_insertion_index(ranges.drop_first(), base, pos - 1);
    } else {
    }
}

/// Law: on a well-formed bus, no two registered ranges overlap.
pub proof fn lemma_entries_disjoint<D>(s: Seq<(BusRange, D)>, i: int, j: int)
    requires
        entries_wf(s),
        0 <= i < s.len(),
        0 <= j < s.len(),
        i != j,
    ensures
        !s[i].0.spec_overlaps(s[j].0),
{
}

/// Law: on a well-formed bus, at most one registered range contains any
/// given address.
pub proof fn lemma_at_most_one_covering<D>(s: Seq<(BusRange, D)>, addr: u64, i: int, j: int)
    requires
        entries_wf(s),
        0 <= i < s.len(),
        0 <= j < s.len(),
        s[i].0.spec_contains(addr),
        s[j].0.spec_contains(addr),
    ensures
        i == j,
{
}

/// Law: removing the entry whose range contains an address leaves every
/// address of that range uncovered.
pub proof fn lemma_removed_range_uncovered<D>(s: Seq<(BusRange, D)>, k: int, addr: u64)
    requires
        entries_wf(s),
        0 <= k < s.len(),
        s[k].0.spec_contains(addr),
    ensures
        !covers_addr(s.remove(k), addr),
{
    s.remove_ensures(k);
    assert forall|i: int| 0 <= i < s.remove(k).len() implies !(#[trigger] s.remove(
        k,
    )[i]).0.spec_contains(addr) by {
        if i < k {
            assert(s.remove(k)[i] == s[i]);
            if s[i].0.spec_contains(addr) {
                lemma_at_most_one_covering(s, addr, i, k);
            }
        } else {
            assert(s.remove(k)[i] == s[i + 1]);
            if s[i + 1].0.spec_contains(addr) {
                lemma_at_most_one_covering(s, addr, i + 1, k);
            }
        }
    }
}

/// The invariant is preserved by removing any entry.
pub proof fn lemma_entries_wf_remove<D>(s: Seq<(BusRange, D)>, k: int)
    requires
        entries_wf(s),
        0 <= k < s.len(),
    ensures
        entries_wf(s.remove(k)),
{
    s.remove_ensures(k);
    assert forall|i: int, j: int|
        0 <= i < j < s.remove(k).len() implies (#[trigger] s.remove(k)[i]).0.spec_last() < (
    #[trigger] s.remove(k)[j]).0.spec_base() by {
        let i0: int = if i < k {
            i
        } else {
            i + 1
        };
        let j0: int = if j < k {
            j
        } else {
            j + 1
        };
        assert(s.remove(k)[i] == s[i0]);
        assert(s.remove(k)[j] == s[j0]);
    }
}

/// The invariant is preserved by inserting a well-formed range that lies
/// strictly between its neighbours.
pub proof fn lemma_entries_wf_insert<D>(s: Seq<(BusRange, D)>, k: int, e: (BusRange, D))
    requires
        entries_wf(s),
        0 <= k <= s.len(),
        e.0.wf(),
        forall|i: int| 0 <= i < k ==> (#[trigger] s[i]).0.spec_last() < e.0.spec_base(),
        forall|i: int| k <= i < s.len() ==> e.0.spec_last() < (#[trigger] s[i]).0.spec_base(),
    ensures
        entries_wf(s.insert(k, e)),
{
    s.insert_ensures(k, e);
    let t = s.insert(k, e);
    assert forall|i: int| 0 <= i < t.len() implies (#[trigger] t[i]).0.wf() by {
        if i < k {
            assert(t[i] == s[i]);
        } else if i == k {
            assert(t[i] == e);
        } else {
            assert(t[i] == s[i - 1]);
        }
    }
    assert forall|i: int, j: int|
        0 <= i < j < t.len() implies (#[trigger] t[i]).0.spec_last() < (
    #[trigger] t[j]).0.spec_base() by {
        if i < k {
            assert(t[i] == s[i]);
        } else if i == k {
            assert(t[i] == e);
        } else {
            assert(t[i] == s[i - 1]);
        }
        if j < k {
            assert(t[j] == s[j]);
        } else if j == k {
            assert(t[j] == e);
        } else {
            assert(t[j] == s[j - 1]);
        }
    }
}

/// A bus that's agnostic to the device type.
pub struct Bus<D> {
    devices: Vec<(BusRange, D)>,
}

impl<D> Default for Bus<D> {
    fn default() -> (r: Self)
        ensures
            r.entries() == Seq::<(BusRange, D)>::empty(),
            r.wf(),
    {
        Bus { devices: Vec::new() }
    }
}

impl<D> Bus<D> {
    /// The registered (range, device) associations, in base-address order.
    pub closed spec fn entries(self) -> Seq<(BusRange, D)> {
        self.devices@
    }

    /// The bus invariant; see [`entries_wf`]. It holds of every bus that was
    /// created by [`Bus::new`] and mutated only through the bus operations.
    pub open spec fn wf(self) -> bool {
        entries_wf(self.entries())
    }

    /// Create an empty bus.
    pub fn new() -> (r: Self)
        ensures
            r.entries() == Seq::<(BusRange, D)>::empty(),
            r.wf(),
    {
        Bus { devices: Vec::new() }
    }

    /// Index of the unique entry whose range contains `addr`, if any: a
    /// binary search for the entry with the greatest base address that is at
    /// most `addr`, then a containment check against that range's last
    /// address.
    fn find(&self, addr: u64) -> (r: Option<usize>)
        requires
            self.wf(),
        ensures
            match r {
                Some(i) => i < self.entries().len() && self.entries()[i as int].0.spec_contains(
                    addr,
                ),
                None => !covers_addr(self.entries(), addr),
            },
    {
        let mut lo: usize = 0;
        let mut hi: usize = self.devices.len();
        while lo < hi
            invariant
                self.wf(),
                lo <= hi <= self.entries().len(),
                forall|k: int| 0 <= k < lo ==> (#[trigger] self.entries()[k]).0.spec_base() <= addr,
                forall|k: int|
                    hi <= k < self.entries().len() ==> (#[trigger] self.entries()[k]).0.spec_base()
                        > addr,
            decreases hi - lo,
        {
            let mid = lo + (hi - lo) / 2;
            if self.devices[mid].0.base() <= addr {
                lo = mid + 1;
            } else {
                hi = mid;
            }
        }
        if lo == 0 {
            return None;
        }
        let cand = lo - 1;
        let rg = &self.devices[cand].0;
        if rg.last() >= addr {
            Some(cand)
        } else {
            None
        }
    }

    /// Return the registered range and device associated with `addr`.
    ///
    /// The entry is returned exactly when its range contains `addr`; when no
    /// registered range contains `addr`, nothing is returned.
    pub fn device(&self, addr: u64) -> (r: Option<(&BusRange, &D)>)
        requires
            self.wf(),
        ensures
            match r {
                Some(p) => {
                    &&& exists|i: int|
                        0 <= i < self.entries().len() && #[trigger] self.entries()[i] == (
                        *p.0,
                        *p.1,
                        )
                    &&& p.0.spec_contains(addr)
                },
                None => !covers_addr(self.entries(), addr),
            },
    {
        match self.find(addr) {
            Some(i) => {
                let pair = &self.devices[i];
                Some((&pair.0, &pair.1))
            },
            None => None,
        }
    }

    /// Return the registered range and a mutable reference to the device
    /// associated with `addr`.
    pub fn device_mut(&mut self, addr: u64) -> (r: Option<(BusRange, &mut D)>)
        requires
            old(self).wf(),
        ensures
            final(self).wf(),
            match r {
                Some(p) => {
                    &&& exists|i: int|
                        0 <= i < old(self).entries().len() && #[trigger] old(self).entries()[i] == (
                        p.0,
                        *p.1,
                        ) && final(self).entries() == old(self).entries().update(
                            i,
                            (p.0, *final(p.1)),
                        )
                    &&& p.0.spec_contains(addr)
                },
                None => !covers_addr(old(self).entries(), addr) && *final(self) == *old(self),
            },
    {
        match self.find(addr) {
            Some(i) => {
                let range = self.devices[i].0;
                let pair = &mut self.devices[i];
                Some((range, &mut pair.1))
            },
            None => None,
        }
    }

    /// Register a device with the provided range.
    ///
    /// Fails with [`Error::DeviceOverlap`], leaving the bus unchanged,
    /// exactly when `range` overlaps some already registered range; on
    /// success the association is inserted at its base-sorted position and
    /// all previous ones are kept.
    pub fn register(&mut self, range: BusRange, device: D) -> (r: Result<(), Error>)
        requires
            old(self).wf(),
            range.wf(),
        ensures
            final(self).wf(),
            match r {
                Ok(()) => {
                    &&& !overlaps_any(old(self).entries(), range)
                    &&& final(self).entries() == old(self).entries().insert(
                        range_insertion_index(
                            entry_ranges(old(self).entries()),
                            range.spec_base(),
                        ),
                        (range, device),
                    )
                },
                Err(e) => {
                    &&& e == Error::DeviceOverlap
                    &&& overlaps_any(old(self).entries(), range)
                    &&& *final(self) == *old(self)
                },
            },
    {
        let mut idx: usize = 0;
        while idx < self.devices.len()
            invariant
                self.wf(),
                range.wf(),
                idx <= self.entries().len(),
                forall|k: int|
                    0 <= k < idx ==> !(#[trigger] self.entries()[k]).0.spec_overlaps(range),
            decreases self.entries().len() - idx,
        {
            if range.overlaps(&self.devices[idx].0) {
                return Err(Error::DeviceOverlap);
            }
            idx += 1;
        }

        // Find the insertion point that keeps the entries sorted: the first
        // index whose base address exceeds the new range's base.
        let mut pos: usize = 0;
        while pos < self.devices.len() && self.devices[pos].0.base() < range.base()
            invariant
                self.wf(),
                range.wf(),
                pos <= self.entries().len(),
                forall|k: int|
                    0 <= k < self.entries().len() ==> !(#[trigger] self.entries()[
                        k]).0.spec_overlaps(range),
                forall|k: int|
                    0 <= k < pos ==> (#[trigger] self.entries()[k]).0.spec_base()
                        < range.spec_base(),
            decreases self.entries().len() - pos,
        {
            pos += 1;
        }

        proof {
            let s = self.entries();
            assert forall|i: int| 0 <= i < pos implies (#[trigger] s[i]).0.spec_last()
                < range.spec_base() by {
                assert(!s[i].0.spec_overlaps(range));
            }
            assert forall|i: int| pos <= i < s.len() implies range.spec_last() < (
            #[trigger] s[i]).0.spec_base() by {
                assert(s[pos as int].0.spec_base() >= range.spec_base());
                if i > pos {
                    assert(s[pos as int].0.spec_last() < s[i].0.spec_base());
                }
                assert(!s[i].0.spec_overlaps(range));
            }
            lemma_entries_wf_insert(s, pos as int, (range, device));
            let ranges = entry_ranges(s);
            assert forall|i: int| 0 <= i < pos implies (#[trigger] ranges[i]).spec_base()
                < range.spec_base() by {
                assert(ranges[i] == s[i].0);
            }
            assert forall|i: int| pos <= i < ranges.len() implies (#[trigger] ranges[i]).spec_base()
                >= range.spec_base() by {
                assert(ranges[i] == s[i].0);
                assert(s[pos as int].0.spec_base() >= range.spec_base());
                if i > pos {
                    assert(s[pos as int].0.spec_last() < s[i].0.spec_base());
                }
            }
            lemma_range_insertion_index(ranges, range.spec_base(), pos as int);
        }

        self.devices.insert(pos, (range, device));

        Ok(())
    }

    /// Deregister the device associated with `addr`.
    ///
    /// Removes and returns exactly the one association whose range contains
    /// `addr`; a no-op returning nothing when no registered range contains
    /// `addr`.
    pub fn deregister(&mut self, addr: u64) -> (r: Option<(BusRange, D)>)
        requires
            old(self).wf(),
        ensures
            final(self).wf(),
            match r {
                Some(p) => exists|k: int|
                    0 <= k < old(self).entries().len() && #[trigger] old(self).entries()[k] == p
                        && p.0.spec_contains(addr) && final(self).entries() == old(
                        self,
                    ).entries().remove(k),
                None => !covers_addr(old(self).entries(), addr) && *final(self) == *old(self),
            },
    {
        match self.find(addr) {
            Some(i) => {
                proof {
                    lemma_entries_wf_remove(self.entries(), i as int);
                }
                let e = self.devices.remove(i);
                Some(e)
            },
            None => None,
        }
    }

    /// Verify whether an access starting at `addr` with length `len` fits
    /// within any of the registered ranges. Return the range and a handle to
    /// the device when present.
    ///
    /// Fails with [`Error::InvalidRange`] exactly when `(addr, len)` is not a
    /// valid range (zero length, or the last address overflows), and with
    /// [`Error::DeviceNotFound`] exactly when the probe is valid but no
    /// registered range contains the whole access: an access that starts
    /// inside a range but extends past its end is rejected, never truncated.
    pub fn check_access(&self, addr: u64, len: usize) -> (r: Result<(&BusRange, &D), Error>)
        requires
            self.wf(),
        ensures
            r is Ok <==> (len > 0 && addr + len - 1 <= u64::MAX && access_fits(
                self.entries(),
                addr,
                len as u64,
            )),
            match r {
                Ok(p) => {
                    &&& exists|i: int|
                        0 <= i < self.entries().len() && #[trigger] self.entries()[i] == (
                        *p.0,
                        *p.1,
                        )
                    &&& p.0.spec_contains(addr)
                    &&& addr + len - 1 <= p.0.spec_last()
                },
                Err(e) => {
                    &&& (e == Error::InvalidRange <==> (len == 0 || addr + len - 1 > u64::MAX))
                    &&& (e == Error::DeviceNotFound <==> (len > 0 && addr + len - 1 <= u64::MAX
                        && !access_fits(self.entries(), addr, len as u64)))
                },
            },
    {
        let access_range = match BusRange::new(addr, len as u64) {
            Ok(rg) => rg,
            Err(_) => {
                return Err(Error::InvalidRange);
            },
        };
        match self.device(addr) {
            Some((rg, d)) => {
                if rg.last() >= access_range.last() {
                    Ok((rg, d))
                } else {
                    proof {
                        if access_fits(self.entries(), addr, len as u64) {
                            let s = self.entries();
                            let j = choose|j: int|
                                0 <= j < s.len() && (#[trigger] s[j]).0.spec_contains(addr) && addr
                                    + len - 1 <= s[j].0.spec_last();
                            let i = choose|i: int|
                                0 <= i < s.len() && #[trigger] s[i] == (*rg, *d);
                            lemma_at_most_one_covering(s, addr, i, j);
                        }
                    }
                    Err(Error::DeviceNotFound)
                }
            },
            None => Err(Error::DeviceNotFound),
        }
    }
}

/// Helper trait that can be implemented by types which hold one or more
/// buses.
pub trait BusManager {
    /// Type of the objects held by the bus.
    type D;

    /// The entries of the held bus, for specification purposes.
    spec fn bus_entries(&self) -> Seq<(BusRange, Self::D)>;

    /// Return a reference to the bus.
    fn bus(&self) -> (r: &Bus<Self::D>)
        ensures
            r.entries() == self.bus_entries(),
    ;

    /// Return a mutable reference to the bus.
    fn bus_mut(&mut self) -> (r: &mut Bus<Self::D>)
        ensures
            r.entries() == old(self).bus_entries(),
            final(self).bus_entries() == final(r).entries(),
    ;
}

} // verus!
