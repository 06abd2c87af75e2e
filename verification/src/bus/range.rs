use vstd::prelude::*;

verus! {

use crate::bus::Error;

/// An interval in the address space of a bus.
///
/// A well-formed range is non-empty and its last address still fits in the
/// `u64` address width; [`BusRange::new`] rejects anything else.
#[derive(Copy, Clone, Debug)]
pub struct BusRange {
    base: u64,
    size: u64,
}

impl BusRange {
    /// The range with the given base and size, for specification purposes;
    /// [`BusRange::new`] returns exactly this value on success.
    pub closed spec fn spec_new(base: u64, size: u64) -> BusRange {
        BusRange { base, size }
    }

    /// The base address of the range.
    pub closed spec fn spec_base(self) -> u64 {
        self.base
    }

    /// The size of the range, in addresses.
    pub closed spec fn spec_size(self) -> u64 {
        self.size
    }

    /// The last address of the range, as a mathematical integer.
    pub open spec fn spec_last(self) -> int {
        self.spec_base() + self.spec_size() - 1
    }

    /// A range is well formed when it is non-empty and its last address does
    /// not overflow the address width.
    pub open spec fn wf(self) -> bool {
        self.spec_size() > 0 && self.spec_last() <= u64::MAX
    }

    /// Whether `addr` lies within the closed interval of this range.
    pub open spec fn spec_contains(self, addr: u64) -> bool {
        self.spec_base() <= addr && addr <= self.spec_last()
    }

    /// Whether the closed intervals of `self` and `other` intersect.
    pub open spec fn spec_overlaps(self, other: BusRange) -> bool {
        !(self.spec_base() > other.spec_last() || self.spec_last() < other.spec_base())
    }

    /// Create a new range while checking for overflow.
    ///
    /// Fails with [`Error::InvalidRange`] exactly when the range would be
    /// zero-sized or its last address would not fit in the address width.
    pub fn new(base: u64, size: u64) -> (r: Result<BusRange, Error>)
        ensures
            r is Ok <==> (size > 0 && base + size - 1 <= u64::MAX),
            r matches Ok(rg) ==> rg == BusRange::spec_new(base, size) && rg.spec_base() == base
                && rg.spec_size() == size && rg.wf(),
            r is Err ==> r == Err::<BusRange, Error>(Error::InvalidRange),
    {
        // A zero-length range is not valid.
        if size == 0 {
            return Err(Error::InvalidRange);
        }

        // Subtracting one, because a range that ends at the very edge of the
        // address space is still valid.
        if base.checked_add(size - 1).is_none() {
            return Err(Error::InvalidRange);
        }

        Ok(BusRange { base, size })
    }

    /// Create a new unit range (its size equals `1`); valid for any base.
    pub fn unit(base: u64) -> (r: BusRange)
        ensures
            r.spec_base() == base,
            r.spec_size() == 1,
            r.wf(),
    {
        BusRange { base, size: 1 }
    }

    /// Return the base address of this range.
    pub fn base(&self) -> (r: u64)
        ensures
            r == self.spec_base(),
    {
        self.base
    }

    /// Return the size of the range, truncated to `usize` on targets where
    /// `usize` is narrower than the address width.
    pub fn size(&self) -> (r: usize)
        ensures
            r == self.spec_size() as usize,
    {
        #[verifier::truncate] (self.size as usize)
    }

    /// Return the last bus address that's still part of the range.
    pub fn last(&self) -> (r: u64)
        requires
            self.wf(),
        ensures
            r == self.spec_last(),
    {
        self.base + (self.size - 1)
    }

    /// Law: the specification-level constructor yields exactly the given base
    /// and size.
    pub proof fn lemma_spec_new_fields(base: u64, size: u64)
        ensures
            BusRange::spec_new(base, size).spec_base() == base,
            BusRange::spec_new(base, size).spec_size() == size,
    {
    }

    /// Whether `self` and `other` are the same range for ordering purposes,
    /// which goes by the base address alone; see the note on [`PartialEq`].
    pub open spec fn spec_eq(self, other: BusRange) -> bool {
        self.spec_base() == other.spec_base()
    }

    /// Check whether `self` and `other` overlap as intervals.
    pub fn overlaps(&self, other: &BusRange) -> (r: bool)
        requires
            self.wf(),
            other.wf(),
        ensures
            r == self.spec_overlaps(*other),
    {
        !(self.base > other.last() || self.last() < other.base)
    }
}

// Ranges are compared as if they were solely determined by their base
// addresses. Intervals admit no total order under overlap, so the bus orders
// its keys by base alone and applies the interval checks (`spec_overlaps`,
// `spec_contains`) explicitly wherever correctness requires them; `==` on
// ranges must not be read as "same interval".
impl PartialEq for BusRange {
    fn eq(&self, other: &BusRange) -> bool {
        self.base == other.base
    }
}

impl vstd::std_specs::cmp::PartialEqSpecImpl for BusRange {
    open spec fn obeys_eq_spec() -> bool {
        true
    }

    open spec fn eq_spec(&self, other: &BusRange) -> bool {
        self.spec_eq(*other)
    }
}

impl Eq for BusRange {

}

} // verus!
