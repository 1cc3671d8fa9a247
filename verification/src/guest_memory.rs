//! Guest physical memory: an immutable-after-construction collection of
//! non-overlapping regions, with address translation and bounds-checked
//! bulk and typed I/O.

use crate::address::GuestAddress;
use crate::mmap::{splice_bytes, AnonMemoryDesc, FileMemoryDesc, MemoryMapping, PAGE_SIZE};
use crate::pod::Pod;
use vstd::prelude::*;

verus! {

/// Failures of guest memory construction and access.
#[derive(Clone, Copy, Debug, PartialEq, Eq, Structural)]
pub enum GuestMemError {
    /// No region holds the given address.
    InvalidGuestAddress(GuestAddress),
    /// No single region holds the given address range.
    InvalidGuestAddressRange(GuestAddress, usize),
    /// Access through the underlying mapping failed.
    MemoryAccess(GuestAddress),
    /// A region's mapping could not be created.
    MemoryMappingFailed,
    /// Two of the regions overlap.
    MemoryRegionOverlap,
    /// Syncing a region failed.
    MemorySync,
    /// No regions were given.
    NoMemoryRegions,
}

/// A host mapping together with the guest address it backs.
pub struct MemoryRegion {
    /// The host bytes backing the region.
    pub mapping: MemoryMapping,
    /// The guest address the region starts at.
    pub guest_base: GuestAddress,
}

impl MemoryRegion {
    /// The size of the region in bytes.
    pub fn size(&self) -> (r: usize)
        ensures
            r == self.mapping@.len(),
    {
        self.mapping.size()
    }
}

/// Whether two `(base, size)` region descriptions overlap in guest
/// addresses.
pub open spec fn tuples_overlap(r1: (GuestAddress, usize), r2: (GuestAddress, usize)) -> bool {
    crate::mmap::spec_range_overlap((r1.0.0, r1.1), (r2.0.0, r2.1))
}

/// Whether region `i` of `regions` covers guest address `a`.
pub open spec fn region_covers(regions: Seq<MemoryRegion>, i: int, a: int) -> bool {
    regions[i].guest_base.0 <= a < regions[i].guest_base.0 + regions[i].mapping@.len()
}

/// The largest region end address, or 0 of no regions.
pub open spec fn spec_max_end(regions: Seq<MemoryRegion>) -> int
    decreases regions.len(),
{
    if regions.len() == 0 {
        0
    } else {
        let rest = spec_max_end(regions.drop_last());
        let last = regions.last().guest_base.0 + regions.last().mapping@.len();
        if last >= rest {
            last
        } else {
            rest
        }
    }
}

/// All memory regions mapped for a guest.
pub struct GuestMemory {
    regions: Vec<MemoryRegion>,
}

impl GuestMemory {
    /// How many regions the guest memory holds.
    pub closed spec fn spec_len(self) -> int {
        self.regions@.len() as int
    }

    /// The guest base address of region `i`.
    pub closed spec fn spec_base(self, i: int) -> int {
        self.regions@[i].guest_base.0 as int
    }

    /// The byte size of region `i`.
    pub closed spec fn spec_size(self, i: int) -> int {
        self.regions@[i].mapping@.len() as int
    }

    /// The bytes of region `i`.
    pub closed spec fn spec_bytes(self, i: int) -> Seq<u8> {
        self.regions@[i].mapping@
    }

    /// Region `i` itself.
    pub closed spec fn spec_region(self, i: int) -> MemoryRegion {
        self.regions@[i]
    }

    /// Well-formedness: at least one region, every region non-empty and
    /// inside the address space, and no two regions overlapping.
    pub closed spec fn wf(self) -> bool {
        &&& self.spec_len() >= 1
        &&& forall|i: int|
            0 <= i < self.spec_len() ==> 0 < #[trigger] self.spec_size(i) && self.spec_base(i)
                + self.spec_size(i) <= usize::MAX
        &&& forall|i: int, j: int|
            0 <= i < self.spec_len() && 0 <= j < self.spec_len() && i != j ==> (
            #[trigger] self.spec_base(i) + self.spec_size(i) <= #[trigger] self.spec_base(j)
                || self.spec_base(j) + self.spec_size(j) <= self.spec_base(i))
    }

    /// Whether some region covers guest address `a`.
    pub closed spec fn spec_contains(self, a: int) -> bool {
        exists|i: int| 0 <= i < self.spec_len() && region_covers(self.regions@, i, a)
    }

    /// The region covering guest address `a`.
    pub closed spec fn spec_region_of(self, a: int) -> int {
        choose|i: int| 0 <= i < self.spec_len() && region_covers(self.regions@, i, a)
    }

    /// The highest end address over all regions.
    pub closed spec fn spec_end(self) -> int {
        spec_max_end(self.regions@)
    }
}

/// Distinct regions of a well-formed guest memory share no address: P-style
/// statement of the region-disjointness invariant.
pub proof fn lemma_regions_disjoint(g: GuestMemory, i: int, j: int, a: int)
    requires
        g.wf(),
        0 <= i < g.spec_len(),
        0 <= j < g.spec_len(),
        i != j,
    ensures
        !(g.spec_base(i) <= a < g.spec_base(i) + g.spec_size(i) && g.spec_base(j) <= a
            < g.spec_base(j) + g.spec_size(j)),
{
}

/// In a well-formed guest memory, the region covering an address is the
/// only one.
pub proof fn lemma_region_of_unique(g: GuestMemory, i: int, a: int)
    requires
        g.wf(),
        0 <= i < g.spec_len(),
        g.spec_base(i) <= a < g.spec_base(i) + g.spec_size(i),
    ensures
        g.spec_contains(a),
        g.spec_region_of(a) == i,
{
    assert(region_covers(g.regions@, i, a));
    assert(g.spec_contains(a));
    let j = g.spec_region_of(a);
    if j != i {
        lemma_regions_disjoint(g, i, j, a);
    }
}

impl GuestMemory {
    /// Maps anonymous zeroed regions at the described addresses.  Fails
    /// with `NoMemoryRegions` on an empty list, `MemoryRegionOverlap`
    /// when two described regions overlap, and `MemoryMappingFailed`
    /// when a region is empty or runs past the address space.
    pub fn new_anon(ranges: &[AnonMemoryDesc]) -> (r: Result<GuestMemory, GuestMemError>)
        ensures
            match r {
                Ok(gm) => {
                    &&& ranges@.len() > 0
                    &&& forall|a: int, b: int|
                        0 <= a < b < ranges@.len() ==> !(#[trigger] ranges@[a].spec_overlap(
                            ranges@[b],
                        ))
                    &&& gm.wf()
                    &&& gm.spec_len() == ranges@.len()
                    &&& forall|i: int|
                        0 <= i < ranges@.len() ==> #[trigger] gm.spec_base(i) == ranges@[i].gpa.0
                            && gm.spec_size(i) == ranges@[i].size && gm.spec_bytes(i) =~= Seq::new(
                            ranges@[i].size as nat,
                            |k: int| 0u8,
                        )
                },
                Err(GuestMemError::NoMemoryRegions) => ranges@.len() == 0,
                Err(GuestMemError::MemoryRegionOverlap) => ranges@.len() > 0 && exists|
                    a: int,
                    b: int,
                |
                    0 <= a < b < ranges@.len() && #[trigger] ranges@[a].spec_overlap(ranges@[b]),
                Err(GuestMemError::MemoryMappingFailed) => {
                    &&& ranges@.len() > 0
                    &&& forall|a: int, b: int|
                        0 <= a < b < ranges@.len() ==> !(#[trigger] ranges@[a].spec_overlap(
                            ranges@[b],
                        ))
                    &&& exists|i: int|
                        0 <= i < ranges@.len() && !(0 < #[trigger] ranges@[i].size
                            && ranges@[i].gpa.0 + ranges@[i].size <= usize::MAX)
                },
                Err(_) => false,
            },
    {
        let n: usize = ranges.len();
        if n == 0 {
            return Err(GuestMemError::NoMemoryRegions);
        }
        let mut i: usize = 0;
        while i < n
            invariant
                0 <= i <= n,
                n == ranges@.len(),
                forall|a: int, b: int|
                    0 <= a < b < n && a < i ==> !(#[trigger] ranges@[a].spec_overlap(ranges@[b])),
            decreases n - i,
        {
            let mut j: usize = i + 1;
            while j < n
                invariant
                    0 <= i < j <= n,
                    n == ranges@.len(),
                    forall|a: int, b: int|
                        0 <= a < b < n && a < i ==> !(#[trigger] ranges@[a].spec_overlap(
                            ranges@[b],
                        )),
                    forall|b: int|
                        i < b < j ==> !(#[trigger] ranges@[i as int].spec_overlap(ranges@[b])),
                decreases n - j,
            {
                if ranges[i].overlap(&ranges[j]) {
                    return Err(GuestMemError::MemoryRegionOverlap);
                }
                j = j + 1;
            }
            i = i + 1;
        }
        let mut regions: Vec<MemoryRegion> = Vec::new();
        let mut k: usize = 0;
        while k < n
            invariant
                0 <= k <= n,
                n == ranges@.len(),
                regions@.len() == k,
                forall|a: int, b: int|
                    0 <= a < b < n ==> !(#[trigger] ranges@[a].spec_overlap(ranges@[b])),
                forall|i2: int|
                    0 <= i2 < k ==> {
                        &&& 0 < #[trigger] ranges@[i2].size
                        &&& ranges@[i2].gpa.0 + ranges@[i2].size <= usize::MAX
                        &&& regions@[i2].guest_base == ranges@[i2].gpa
                        &&& regions@[i2].mapping@.len() == ranges@[i2].size
                        &&& regions@[i2].mapping@ =~= Seq::new(
                            ranges@[i2].size as nat,
                            |q: int| 0u8,
                        )
                    },
            decreases n - k,
        {
            let desc = ranges[k];
            if desc.gpa.0.checked_add(desc.size).is_none() {
                return Err(GuestMemError::MemoryMappingFailed);
            }
            let mapping = match MemoryMapping::new_anon(desc.size) {
                Ok(m) => m,
                Err(_) => {
                    return Err(GuestMemError::MemoryMappingFailed);
                },
            };
            regions.push(MemoryRegion { mapping, guest_base: desc.gpa });
            k = k + 1;
        }
        let gm = GuestMemory { regions };
        proof {
            assert forall|i: int| 0 <= i < ranges@.len() implies {
                &&& 0 < #[trigger] gm.spec_size(i)
                &&& gm.spec_base(i) == ranges@[i].gpa.0
                &&& gm.spec_size(i) == ranges@[i].size
                &&& gm.spec_base(i) + gm.spec_size(i) <= usize::MAX
                &&& gm.spec_bytes(i) =~= Seq::new(ranges@[i].size as nat, |q: int| 0u8)
            } by {
                assert(0 < ranges@[i].size);
            }
            assert forall|a: int, b: int|
                0 <= a < gm.spec_len() && 0 <= b < gm.spec_len() && a != b implies (
            #[trigger] gm.spec_base(a) + gm.spec_size(a) <= #[trigger] gm.spec_base(b)
                || gm.spec_base(b) + gm.spec_size(b) <= gm.spec_base(a)) by {
                assert(0 < ranges@[a].size);
                assert(0 < ranges@[b].size);
                if a < b {
                    assert(!ranges@[a].spec_overlap(ranges@[b]));
                } else {
                    assert(!ranges@[b].spec_overlap(ranges@[a]));
                }
            }
        }
        Ok(gm)
    }

    /// Maps file-backed regions at the described addresses, with the
    /// same overlap rules plus the file-range overlap check for regions
    /// backed by the same file.
    pub fn new_file_backed(ranges: &[FileMemoryDesc]) -> (r: Result<GuestMemory, GuestMemError>)
        ensures
            match r {
                Ok(gm) => {
                    &&& ranges@.len() > 0
                    &&& forall|a: int, b: int|
                        0 <= a < b < ranges@.len() ==> !(#[trigger] ranges@[a].spec_overlap(
                            ranges@[b],
                        ))
                    &&& gm.wf()
                    &&& gm.spec_len() == ranges@.len()
                    &&& forall|i: int|
                        0 <= i < ranges@.len() ==> #[trigger] gm.spec_base(i) == ranges@[i].gpa.0
                            && gm.spec_size(i) == ranges@[i].size
                },
                Err(GuestMemError::NoMemoryRegions) => ranges@.len() == 0,
                Err(GuestMemError::MemoryRegionOverlap) => ranges@.len() > 0 && exists|
                    a: int,
                    b: int,
                |
                    0 <= a < b < ranges@.len() && #[trigger] ranges@[a].spec_overlap(ranges@[b]),
                Err(GuestMemError::MemoryMappingFailed) => {
                    &&& ranges@.len() > 0
                    &&& forall|a: int, b: int|
                        0 <= a < b < ranges@.len() ==> !(#[trigger] ranges@[a].spec_overlap(
                            ranges@[b],
                        ))
                    &&& exists|i: int|
                        0 <= i < ranges@.len() && !(0 < #[trigger] ranges@[i].size
                            && ranges@[i].gpa.0 + ranges@[i].size <= usize::MAX && ranges@[i].offset
                            % PAGE_SIZE as usize == 0 && ranges@[i].offset + ranges@[i].size
                            <= usize::MAX)
                },
                Err(_) => false,
            },
    {
        let n: usize = ranges.len();
        if n == 0 {
            return Err(GuestMemError::NoMemoryRegions);
        }
        let mut i: usize = 0;
        while i < n
            invariant
                0 <= i <= n,
                n == ranges@.len(),
                forall|a: int, b: int|
                    0 <= a < b < n && a < i ==> !(#[trigger] ranges@[a].spec_overlap(ranges@[b])),
            decreases n - i,
        {
            let mut j: usize = i + 1;
            while j < n
                invariant
                    0 <= i < j <= n,
                    n == ranges@.len(),
                    forall|a: int, b: int|
                        0 <= a < b < n && a < i ==> !(#[trigger] ranges@[a].spec_overlap(
                            ranges@[b],
                        )),
                    forall|b: int|
                        i < b < j ==> !(#[trigger] ranges@[i as int].spec_overlap(ranges@[b])),
                decreases n - j,
            {
                if ranges[i].overlap(&ranges[j]) {
                    return Err(GuestMemError::MemoryRegionOverlap);
                }
                j = j + 1;
            }
            i = i + 1;
        }
        let mut regions: Vec<MemoryRegion> = Vec::new();
        let mut k: usize = 0;
        while k < n
            invariant
                0 <= k <= n,
                n == ranges@.len(),
                regions@.len() == k,
                forall|a: int, b: int|
                    0 <= a < b < n ==> !(#[trigger] ranges@[a].spec_overlap(ranges@[b])),
                forall|i2: int|
                    0 <= i2 < k ==> {
                        &&& 0 < #[trigger] ranges@[i2].size
                        &&& ranges@[i2].gpa.0 + ranges@[i2].size <= usize::MAX
                        &&& ranges@[i2].offset % PAGE_SIZE as usize == 0
                        &&& ranges@[i2].offset + ranges@[i2].size <= usize::MAX
                        &&& regions@[i2].guest_base == ranges@[i2].gpa
                        &&& regions@[i2].mapping@.len() == ranges@[i2].size
                    },
            decreases n - k,
        {
            let desc = ranges[k];
            if desc.gpa.0.checked_add(desc.size).is_none() {
                return Err(GuestMemError::MemoryMappingFailed);
            }
            let mapping = match MemoryMapping::new_file_backed(&desc) {
                Ok(m) => m,
                Err(_) => {
                    return Err(GuestMemError::MemoryMappingFailed);
                },
            };
            regions.push(MemoryRegion { mapping, guest_base: desc.gpa });
            k = k + 1;
        }
        let gm = GuestMemory { regions };
        proof {
            assert forall|i: int| 0 <= i < ranges@.len() implies {
                &&& 0 < #[trigger] gm.spec_size(i)
                &&& gm.spec_base(i) == ranges@[i].gpa.0
                &&& gm.spec_size(i) == ranges@[i].size
                &&& gm.spec_base(i) + gm.spec_size(i) <= usize::MAX
            } by {
                assert(0 < ranges@[i].size);
            }
            assert forall|a: int, b: int|
                0 <= a < gm.spec_len() && 0 <= b < gm.spec_len() && a != b implies (
            #[trigger] gm.spec_base(a) + gm.spec_size(a) <= #[trigger] gm.spec_base(b)
                || gm.spec_base(b) + gm.spec_size(b) <= gm.spec_base(a)) by {
                assert(0 < ranges@[a].size);
                assert(0 < ranges@[b].size);
                if a < b {
                    assert(!ranges@[a].spec_overlap(ranges@[b]));
                } else {
                    assert(!ranges@[b].spec_overlap(ranges@[a]));
                }
            }
        }
        Ok(gm)
    }

    /// Maps anonymous regions described by `(base, size)` pairs, with the
    /// same error classification as mapping from descriptors.
    pub fn new_anon_from_tuples(ranges: &[(GuestAddress, usize)]) -> (r: Result<
        GuestMemory,
        GuestMemError,
    >)
        ensures
            match r {
                Ok(gm) => {
                    &&& ranges@.len() > 0
                    &&& forall|a: int, b: int|
                        0 <= a < b < ranges@.len() ==> !tuples_overlap(ranges@[a], ranges@[b])
                    &&& gm.wf()
                    &&& gm.spec_len() == ranges@.len()
                    &&& forall|i: int|
                        0 <= i < ranges@.len() ==> #[trigger] gm.spec_base(i) == ranges@[i].0.0
                            && gm.spec_size(i) == ranges@[i].1 && gm.spec_bytes(i) =~= Seq::new(
                            ranges@[i].1 as nat,
                            |k: int| 0u8,
                        )
                },
                Err(GuestMemError::NoMemoryRegions) => ranges@.len() == 0,
                Err(GuestMemError::MemoryRegionOverlap) => ranges@.len() > 0 && exists|
                    a: int,
                    b: int,
                | 0 <= a < b < ranges@.len() && #[trigger] tuples_overlap(ranges@[a], ranges@[b]),
                Err(GuestMemError::MemoryMappingFailed) => {
                    &&& ranges@.len() > 0
                    &&& forall|a: int, b: int|
                        0 <= a < b < ranges@.len() ==> !tuples_overlap(ranges@[a], ranges@[b])
                    &&& exists|i: int|
                        0 <= i < ranges@.len() && !(0 < #[trigger] ranges@[i].1 && ranges@[i].0.0
                            + ranges@[i].1 <= usize::MAX)
                },
                Err(_) => false,
            },
    {
        let mut descriptors: Vec<AnonMemoryDesc> = Vec::new();
        let n: usize = ranges.len();
        let mut i: usize = 0;
        while i < n
            invariant
                0 <= i <= n,
                n == ranges@.len(),
                descriptors@.len() == i,
                forall|k: int|
                    0 <= k < i ==> #[trigger] descriptors@[k] == (AnonMemoryDesc {
                        gpa: ranges@[k].0,
                        size: ranges@[k].1,
                    }),
            decreases n - i,
        {
            descriptors.push(AnonMemoryDesc { gpa: ranges[i].0, size: ranges[i].1 });
            i = i + 1;
        }
        match Self::new_anon(descriptors.as_slice()) {
            Ok(gm) => {
                proof {
                    assert forall|a: int, b: int|
                        0 <= a < b < ranges@.len() implies !tuples_overlap(
                        ranges@[a],
                        ranges@[b],
                    ) by {
                        assert(!descriptors@[a].spec_overlap(descriptors@[b]));
                        assert(descriptors@[a].gpa == ranges@[a].0 && descriptors@[a].size
                            == ranges@[a].1);
                        assert(descriptors@[b].gpa == ranges@[b].0 && descriptors@[b].size
                            == ranges@[b].1);
                    }
                }
                Ok(gm)
            },
            Err(e) => {
                proof {
                    if e is MemoryRegionOverlap {
                        let (a, b): (int, int) = choose|a: int, b: int|
                            0 <= a < b < descriptors@.len() && #[trigger] descriptors@[
                                a
                            ].spec_overlap(descriptors@[b]);
                        assert(tuples_overlap(ranges@[a], ranges@[b]));
                    }
                    if e is MemoryMappingFailed {
                        let i = choose|i: int|
                            0 <= i < descriptors@.len() && !(0 < #[trigger] descriptors@[i].size
                                && descriptors@[i].gpa.0 + descriptors@[i].size <= usize::MAX);
                        assert(!(0 < ranges@[i].1 && ranges@[i].0.0 + ranges@[i].1 <= usize::MAX));
                        assert forall|a: int, b: int|
                            0 <= a < b < ranges@.len() implies !tuples_overlap(
                            ranges@[a],
                            ranges@[b],
                        ) by {
                            assert(!descriptors@[a].spec_overlap(descriptors@[b]));
                            assert(descriptors@[a].gpa == ranges@[a].0 && descriptors@[a].size
                                == ranges@[a].1);
                            assert(descriptors@[b].gpa == ranges@[b].0 && descriptors@[b].size
                                == ranges@[b].1);
                        }
                    }
                }
                Err(e)
            },
        }
    }

    /// The number of regions.
    pub fn num_regions(&self) -> (r: usize)
        ensures
            r == self.spec_len(),
    {
        self.regions.len()
    }

    /// Whether `addr` lies in some region.
    pub fn address_in_range(&self, addr: GuestAddress) -> (r: bool)
        requires
            self.wf(),
        ensures
            r == self.spec_contains(addr.0 as int),
    {
        let n: usize = self.regions.len();
        let mut i: usize = 0;
        while i < n
            invariant
                0 <= i <= n,
                self.wf(),
                n == self.spec_len(),
                forall|k: int| 0 <= k < i ==> !region_covers(self.regions@, k, addr.0 as int),
            decreases n - i,
        {
            let base: usize = self.regions[i].guest_base.0;
            let size: usize = self.regions[i].mapping.size();
            if addr.0 >= base && addr.0 - base < size {
                proof {
                    assert(region_covers(self.regions@, i as int, addr.0 as int));
                }
                return true;
            }
            proof {
                assert(!region_covers(self.regions@, i as int, addr.0 as int));
            }
            i = i + 1;
        }
        false
    }

    /// `base + offset`, if the sum lies in some region.
    pub fn checked_offset(&self, base: GuestAddress, offset: usize) -> (r: Option<GuestAddress>)
        requires
            self.wf(),
        ensures
            match r {
                Some(a) => base.0 + offset <= usize::MAX && a.0 == base.0 + offset
                    && self.spec_contains(a.0 as int),
                None => base.0 + offset > usize::MAX || !self.spec_contains(base.0 + offset),
            },
    {
        match base.checked_add(offset) {
            Some(addr) => {
                if self.address_in_range(addr) {
                    Some(addr)
                } else {
                    None
                }
            },
            None => None,
        }
    }

    /// The end address of memory: the highest region end.
    pub fn end_addr(&self) -> (r: GuestAddress)
        requires
            self.wf(),
        ensures
            r.0 == self.spec_end(),
    {
        let n: usize = self.regions.len();
        let mut best: usize = 0;
        let mut i: usize = 0;
        while i < n
            invariant
                0 <= i <= n,
                self.wf(),
                n == self.spec_len(),
                best == spec_max_end(self.regions@.take(i as int)),
            decreases n - i,
        {
            let base: usize = self.regions[i].guest_base.0;
            let size: usize = self.regions[i].mapping.size();
            proof {
                assert(self.spec_base(i as int) + self.spec_size(i as int) <= usize::MAX);
            }
            let end: usize = base + size;
            if end > best {
                best = end;
            }
            proof {
                assert(self.regions@.take(i + 1).drop_last() =~= self.regions@.take(i as int));
                assert(self.regions@.take(i + 1).last() == self.regions@[i as int]);
            }
            i = i + 1;
        }
        proof {
            assert(self.regions@.take(n as int) =~= self.regions@);
        }
        GuestAddress(best)
    }
}


/// The argument triple the region walker hands its callback for region
/// `i`: the index, the guest base, and the size.
pub open spec fn region_cb_args(g: GuestMemory, i: int) -> (usize, GuestAddress, usize) {
    (i as usize, GuestAddress((g.spec_base(i)) as usize), g.spec_size(i) as usize)
}

/// Whether folding `foldf` from `init` over `vals`, left to right, can
/// yield `r`, going by the closure's contract.
pub open spec fn folds_to<T, G: Fn(T, T) -> T>(foldf: G, init: T, vals: Seq<T>, r: T) -> bool
    decreases vals.len(),
{
    if vals.len() == 0 {
        r == init
    } else {
        exists|mid: T|
            #[trigger] foldf.ensures((init, vals[0]), mid) && folds_to(
                foldf,
                mid,
                vals.skip(1),
                r,
            )
    }
}

/// One more fold step extends a fold chain.
proof fn lemma_folds_to_push<T, G: Fn(T, T) -> T>(
    foldf: G,
    init: T,
    vals: Seq<T>,
    r: T,
    v: T,
    r2: T,
)
    requires
        folds_to(foldf, init, vals, r),
        foldf.ensures((r, v), r2),
    ensures
        folds_to(foldf, init, vals.push(v), r2),
    decreases vals.len(),
{
    let p = vals.push(v);
    if vals.len() == 0 {
        assert(p[0] == v);
        assert(p.skip(1) =~= Seq::<T>::empty());
        assert(folds_to(foldf, r2, p.skip(1), r2));
    } else {
        let mid = choose|mid: T|
            #[trigger] foldf.ensures((init, vals[0]), mid) && folds_to(
                foldf,
                mid,
                vals.skip(1),
                r,
            );
        lemma_folds_to_push(foldf, mid, vals.skip(1), r, v, r2);
        assert(p[0] == vals[0]);
        assert(p.skip(1) =~= vals.skip(1).push(v));
    }
}

impl GuestMemory {
    /// Finds the region covering `addr`.
    fn find_region(&self, addr: GuestAddress) -> (r: Option<usize>)
        requires
            self.wf(),
        ensures
            match r {
                Some(i) => {
                    &&& 0 <= i < self.spec_len()
                    &&& self.spec_base(i as int) <= addr.0 < self.spec_base(i as int)
                        + self.spec_size(i as int)
                    &&& self.spec_contains(addr.0 as int)
                    &&& self.spec_region_of(addr.0 as int) == i
                },
                None => !self.spec_contains(addr.0 as int),
            },
    {
        let n: usize = self.regions.len();
        let mut i: usize = 0;
        while i < n
            invariant
                0 <= i <= n,
                self.wf(),
                n == self.spec_len(),
                forall|k: int| 0 <= k < i ==> !region_covers(self.regions@, k, addr.0 as int),
            decreases n - i,
        {
            let base: usize = self.regions[i].guest_base.0;
            let size: usize = self.regions[i].mapping.size();
            if addr.0 >= base && addr.0 - base < size {
                proof {
                    assert(region_covers(self.regions@, i as int, addr.0 as int));
                    lemma_region_of_unique(*self, i as int, addr.0 as int);
                }
                return Some(i);
            }
            proof {
                assert(!region_covers(self.regions@, i as int, addr.0 as int));
            }
            i = i + 1;
        }
        None
    }

    /// Writes as much of `buf` as fits into the single region covering
    /// `guest_addr`, returning the count written.  Fails exactly when no
    /// region covers the address.
    pub fn write_slice_at_addr(&mut self, buf: &[u8], guest_addr: GuestAddress) -> (r: Result<
        usize,
        GuestMemError,
    >)
        requires
            old(self).wf(),
        ensures
            final(self).wf(),
            final(self).spec_len() == old(self).spec_len(),
            forall|k: int|
                0 <= k < old(self).spec_len() ==> #[trigger] final(self).spec_base(k) == old(
                    self,
                ).spec_base(k) && final(self).spec_size(k) == old(self).spec_size(k),
            match r {
                Ok(n) => {
                    let ri = old(self).spec_region_of(guest_addr.0 as int);
                    let off = guest_addr.0 - old(self).spec_base(ri);
                    &&& old(self).spec_contains(guest_addr.0 as int)
                    &&& n == if buf@.len() <= old(self).spec_size(ri) - off {
                        buf@.len() as int
                    } else {
                        old(self).spec_size(ri) - off
                    }
                    &&& final(self).spec_bytes(ri) == splice_bytes(
                        old(self).spec_bytes(ri),
                        off,
                        buf@.take(n as int),
                    )
                    &&& forall|k: int|
                        0 <= k < old(self).spec_len() && k != ri ==> #[trigger] final(self).spec_bytes(k) == old(self).spec_bytes(k)
                },
                Err(e) => {
                    &&& e == GuestMemError::InvalidGuestAddress(guest_addr)
                    &&& !old(self).spec_contains(guest_addr.0 as int)
                    &&& *final(self) == *old(self)
                },
            },
    {
        let idx: usize = match self.find_region(guest_addr) {
            Some(i) => i,
            None => {
                return Err(GuestMemError::InvalidGuestAddress(guest_addr));
            },
        };
        let offset: usize = guest_addr.0 - self.regions[idx].guest_base.0;
        proof {
            assert(offset < self.spec_size(idx as int));
        }
        let ghost before = self.regions@;
        let mut region = self.regions.remove(idx);
        let res = region.mapping.write_slice(buf, offset);
        self.regions.insert(idx, region);
        proof {
            assert(self.regions@ =~= before.update(idx as int, self.regions@[idx as int]));
            assert(forall|k: int|
                0 <= k < self.regions@.len() && k != idx ==> self.regions@[k] == before[k]);
            assert(self.regions@[idx as int].guest_base == before[idx as int].guest_base);
            assert(self.regions@[idx as int].mapping@.len() == before[idx as int].mapping@.len());
            assert forall|k: int|
                0 <= k < self.spec_len() implies #[trigger] self.spec_base(k) == old(
                self,
            ).spec_base(k) && #[trigger] self.spec_size(k) == old(self).spec_size(k) by {
                if k != idx {
                    assert(self.regions@[k] == before[k]);
                }
            }
            assert(self.wf()) by {
                assert forall|i2: int|
                    0 <= i2 < self.spec_len() implies 0 < #[trigger] self.spec_size(i2)
                    && self.spec_base(i2) + self.spec_size(i2) <= usize::MAX by {
                    assert(self.spec_size(i2) == old(self).spec_size(i2));
                    assert(self.spec_base(i2) == old(self).spec_base(i2));
                }
                assert forall|a: int, b: int|
                    0 <= a < self.spec_len() && 0 <= b < self.spec_len() && a != b implies (
                #[trigger] self.spec_base(a) + self.spec_size(a) <= #[trigger] self.spec_base(b)
                    || self.spec_base(b) + self.spec_size(b) <= self.spec_base(a)) by {
                    assert(self.spec_size(a) == old(self).spec_size(a));
                    assert(self.spec_base(a) == old(self).spec_base(a));
                    assert(self.spec_size(b) == old(self).spec_size(b));
                    assert(self.spec_base(b) == old(self).spec_base(b));
                    assert(old(self).spec_base(a) + old(self).spec_size(a) <= old(
                        self,
                    ).spec_base(b) || old(self).spec_base(b) + old(self).spec_size(b) <= old(
                        self,
                    ).spec_base(a));
                }
            }
        }
        match res {
            Ok(n) => Ok(n),
            Err(_) => Err(GuestMemError::MemoryAccess(guest_addr)),
        }
    }

    /// Reads as much as fits into the front of `buf` from the single
    /// region covering `guest_addr`, returning the count read.  Fails
    /// exactly when no region covers the address.
    pub fn read_slice_at_addr(&self, buf: &mut Vec<u8>, guest_addr: GuestAddress) -> (r: Result<
        usize,
        GuestMemError,
    >)
        requires
            self.wf(),
        ensures
            match r {
                Ok(n) => {
                    let ri = self.spec_region_of(guest_addr.0 as int);
                    let off = guest_addr.0 - self.spec_base(ri);
                    &&& self.spec_contains(guest_addr.0 as int)
                    &&& n == if old(buf)@.len() <= self.spec_size(ri) - off {
                        old(buf)@.len() as int
                    } else {
                        self.spec_size(ri) - off
                    }
                    &&& final(buf)@ == self.spec_bytes(ri).subrange(off, off + n) + old(
                        buf,
                    )@.skip(n as int)
                },
                Err(e) => {
                    &&& e == GuestMemError::InvalidGuestAddress(guest_addr)
                    &&& !self.spec_contains(guest_addr.0 as int)
                    &&& *final(buf) == *old(buf)
                },
            },
    {
        let idx: usize = match self.find_region(guest_addr) {
            Some(i) => i,
            None => {
                return Err(GuestMemError::InvalidGuestAddress(guest_addr));
            },
        };
        let offset: usize = guest_addr.0 - self.regions[idx].guest_base.0;
        match self.regions[idx].mapping.read_slice(buf, offset) {
            Ok(n) => Ok(n),
            Err(_) => Err(GuestMemError::MemoryAccess(guest_addr)),
        }
    }

    /// Stores `val` at `guest_addr`, all or nothing: it succeeds exactly
    /// when the whole object lies inside the single region covering the
    /// address, and never crosses a region boundary.
    pub fn write_obj_at_addr<T: Pod>(&mut self, val: T, guest_addr: GuestAddress) -> (r: Result<
        (),
        GuestMemError,
    >)
        requires
            old(self).wf(),
        ensures
            final(self).wf(),
            final(self).spec_len() == old(self).spec_len(),
            forall|k: int|
                0 <= k < old(self).spec_len() ==> #[trigger] final(self).spec_base(k) == old(
                    self,
                ).spec_base(k) && final(self).spec_size(k) == old(self).spec_size(k),
            match r {
                Ok(()) => {
                    let ri = old(self).spec_region_of(guest_addr.0 as int);
                    let off = guest_addr.0 - old(self).spec_base(ri);
                    &&& old(self).spec_contains(guest_addr.0 as int)
                    &&& off + T::spec_size() <= old(self).spec_size(ri)
                    &&& final(self).spec_bytes(ri) == splice_bytes(
                        old(self).spec_bytes(ri),
                        off,
                        val.as_bytes(),
                    )
                    &&& forall|k: int|
                        0 <= k < old(self).spec_len() && k != ri ==> #[trigger] final(self).spec_bytes(k) == old(self).spec_bytes(k)
                },
                Err(e) => {
                    &&& e == GuestMemError::InvalidGuestAddressRange(
                        guest_addr,
                        T::spec_size() as usize,
                    )
                    &&& !(old(self).spec_contains(guest_addr.0 as int) && guest_addr.0 - old(
                        self,
                    ).spec_base(old(self).spec_region_of(guest_addr.0 as int)) + T::spec_size()
                        <= old(self).spec_size(old(self).spec_region_of(guest_addr.0 as int)))
                    &&& *final(self) == *old(self)
                },
            },
    {
        let sz: usize = T::size();
        let idx: usize = match self.find_region(guest_addr) {
            Some(i) => i,
            None => {
                return Err(GuestMemError::InvalidGuestAddressRange(guest_addr, sz));
            },
        };
        let offset: usize = guest_addr.0 - self.regions[idx].guest_base.0;
        let region_size: usize = self.regions[idx].mapping.size();
        if sz > region_size - offset {
            return Err(GuestMemError::InvalidGuestAddressRange(guest_addr, sz));
        }
        let ghost before = self.regions@;
        proof {
            val.lemma_size();
        }
        let mut region = self.regions.remove(idx);
        let res = region.mapping.write_obj(val, offset);
        self.regions.insert(idx, region);
        proof {
            assert(self.regions@ =~= before.update(idx as int, self.regions@[idx as int]));
            assert(forall|k: int|
                0 <= k < self.regions@.len() && k != idx ==> self.regions@[k] == before[k]);
            assert(self.regions@[idx as int].guest_base == before[idx as int].guest_base);
            assert(self.regions@[idx as int].mapping@.len() == before[idx as int].mapping@.len());
            assert forall|k: int|
                0 <= k < self.spec_len() implies #[trigger] self.spec_base(k) == old(
                self,
            ).spec_base(k) && #[trigger] self.spec_size(k) == old(self).spec_size(k) by {
                if k != idx {
                    assert(self.regions@[k] == before[k]);
                }
            }
            assert(self.wf()) by {
                assert forall|i2: int|
                    0 <= i2 < self.spec_len() implies 0 < #[trigger] self.spec_size(i2)
                    && self.spec_base(i2) + self.spec_size(i2) <= usize::MAX by {
                    assert(self.spec_size(i2) == old(self).spec_size(i2));
                    assert(self.spec_base(i2) == old(self).spec_base(i2));
                }
                assert forall|a: int, b: int|
                    0 <= a < self.spec_len() && 0 <= b < self.spec_len() && a != b implies (
                #[trigger] self.spec_base(a) + self.spec_size(a) <= #[trigger] self.spec_base(b)
                    || self.spec_base(b) + self.spec_size(b) <= self.spec_base(a)) by {
                    assert(self.spec_size(a) == old(self).spec_size(a));
                    assert(self.spec_base(a) == old(self).spec_base(a));
                    assert(self.spec_size(b) == old(self).spec_size(b));
                    assert(self.spec_base(b) == old(self).spec_base(b));
                    assert(old(self).spec_base(a) + old(self).spec_size(a) <= old(
                        self,
                    ).spec_base(b) || old(self).spec_base(b) + old(self).spec_size(b) <= old(
                        self,
                    ).spec_base(a));
                }
            }
        }
        match res {
            Ok(()) => Ok(()),
            Err(_) => Err(GuestMemError::MemoryAccess(guest_addr)),
        }
    }

    /// Loads the object stored at `guest_addr`, all or nothing, with the
    /// same single-region rule as storing.
    pub fn read_obj_from_addr<T: Pod>(&self, guest_addr: GuestAddress) -> (r: Result<
        T,
        GuestMemError,
    >)
        requires
            self.wf(),
        ensures
            match r {
                Ok(v) => {
                    let ri = self.spec_region_of(guest_addr.0 as int);
                    let off = guest_addr.0 - self.spec_base(ri);
                    &&& self.spec_contains(guest_addr.0 as int)
                    &&& off + T::spec_size() <= self.spec_size(ri)
                    &&& v == T::of_bytes(
                        self.spec_bytes(ri).subrange(off, off + T::spec_size() as int),
                    )
                },
                Err(e) => {
                    &&& e == GuestMemError::InvalidGuestAddressRange(
                        guest_addr,
                        T::spec_size() as usize,
                    )
                    &&& !(self.spec_contains(guest_addr.0 as int) && guest_addr.0 - self.spec_base(
                        self.spec_region_of(guest_addr.0 as int),
                    ) + T::spec_size() <= self.spec_size(self.spec_region_of(guest_addr.0 as int)))
                },
            },
    {
        let sz: usize = T::size();
        let idx: usize = match self.find_region(guest_addr) {
            Some(i) => i,
            None => {
                return Err(GuestMemError::InvalidGuestAddressRange(guest_addr, sz));
            },
        };
        let offset: usize = guest_addr.0 - self.regions[idx].guest_base.0;
        let region_size: usize = self.regions[idx].mapping.size();
        if sz > region_size - offset {
            return Err(GuestMemError::InvalidGuestAddressRange(guest_addr, sz));
        }
        match self.regions[idx].mapping.read_obj::<T>(offset) {
            Ok(v) => Ok(v),
            Err(_) => Err(GuestMemError::MemoryAccess(guest_addr)),
        }
    }

    /// Writes exactly the bytes of `src` at `guest_addr`, inside the
    /// single region covering the address, or fails with the range.
    pub fn read_to_memory(&mut self, guest_addr: GuestAddress, src: &[u8]) -> (r: Result<
        (),
        GuestMemError,
    >)
        requires
            old(self).wf(),
        ensures
            final(self).wf(),
            final(self).spec_len() == old(self).spec_len(),
            forall|k: int|
                0 <= k < old(self).spec_len() ==> #[trigger] final(self).spec_base(k) == old(
                    self,
                ).spec_base(k) && final(self).spec_size(k) == old(self).spec_size(k),
            match r {
                Ok(()) => {
                    let ri = old(self).spec_region_of(guest_addr.0 as int);
                    let off = guest_addr.0 - old(self).spec_base(ri);
                    &&& old(self).spec_contains(guest_addr.0 as int)
                    &&& off + src@.len() <= old(self).spec_size(ri)
                    &&& final(self).spec_bytes(ri) == splice_bytes(
                        old(self).spec_bytes(ri),
                        off,
                        src@,
                    )
                    &&& forall|k: int|
                        0 <= k < old(self).spec_len() && k != ri ==> #[trigger] final(self).spec_bytes(k) == old(self).spec_bytes(k)
                },
                Err(e) => {
                    &&& e == GuestMemError::InvalidGuestAddressRange(
                        guest_addr,
                        src@.len() as usize,
                    )
                    &&& !(old(self).spec_contains(guest_addr.0 as int) && guest_addr.0 - old(
                        self,
                    ).spec_base(old(self).spec_region_of(guest_addr.0 as int)) + src@.len() <= old(
                        self,
                    ).spec_size(old(self).spec_region_of(guest_addr.0 as int)))
                    &&& *final(self) == *old(self)
                },
            },
    {
        let count: usize = src.len();
        let idx: usize = match self.find_region(guest_addr) {
            Some(i) => i,
            None => {
                return Err(GuestMemError::InvalidGuestAddressRange(guest_addr, count));
            },
        };
        let offset: usize = guest_addr.0 - self.regions[idx].guest_base.0;
        let region_size: usize = self.regions[idx].mapping.size();
        if count > region_size - offset {
            return Err(GuestMemError::InvalidGuestAddressRange(guest_addr, count));
        }
        let ghost before = self.regions@;
        let mut region = self.regions.remove(idx);
        let res = region.mapping.read_to_memory(offset, src);
        self.regions.insert(idx, region);
        proof {
            assert(self.regions@ =~= before.update(idx as int, self.regions@[idx as int]));
            assert(forall|k: int|
                0 <= k < self.regions@.len() && k != idx ==> self.regions@[k] == before[k]);
            assert(self.regions@[idx as int].guest_base == before[idx as int].guest_base);
            assert(self.regions@[idx as int].mapping@.len() == before[idx as int].mapping@.len());
            assert forall|k: int|
                0 <= k < self.spec_len() implies #[trigger] self.spec_base(k) == old(
                self,
            ).spec_base(k) && #[trigger] self.spec_size(k) == old(self).spec_size(k) by {
                if k != idx {
                    assert(self.regions@[k] == before[k]);
                }
            }
            assert(self.wf()) by {
                assert forall|i2: int|
                    0 <= i2 < self.spec_len() implies 0 < #[trigger] self.spec_size(i2)
                    && self.spec_base(i2) + self.spec_size(i2) <= usize::MAX by {
                    assert(self.spec_size(i2) == old(self).spec_size(i2));
                    assert(self.spec_base(i2) == old(self).spec_base(i2));
                }
                assert forall|a: int, b: int|
                    0 <= a < self.spec_len() && 0 <= b < self.spec_len() && a != b implies (
                #[trigger] self.spec_base(a) + self.spec_size(a) <= #[trigger] self.spec_base(b)
                    || self.spec_base(b) + self.spec_size(b) <= self.spec_base(a)) by {
                    assert(self.spec_size(a) == old(self).spec_size(a));
                    assert(self.spec_base(a) == old(self).spec_base(a));
                    assert(self.spec_size(b) == old(self).spec_size(b));
                    assert(self.spec_base(b) == old(self).spec_base(b));
                    assert(old(self).spec_base(a) + old(self).spec_size(a) <= old(
                        self,
                    ).spec_base(b) || old(self).spec_base(b) + old(self).spec_size(b) <= old(
                        self,
                    ).spec_base(a));
                }
            }
        }
        match res {
            Ok(()) => Ok(()),
            Err(_) => Err(GuestMemError::MemoryAccess(guest_addr)),
        }
    }

    /// Reads exactly `count` bytes starting at `guest_addr`, inside the
    /// single region covering the address, or fails with the range.
    pub fn write_from_memory(&self, guest_addr: GuestAddress, count: usize) -> (r: Result<
        Vec<u8>,
        GuestMemError,
    >)
        requires
            self.wf(),
        ensures
            match r {
                Ok(v) => {
                    let ri = self.spec_region_of(guest_addr.0 as int);
                    let off = guest_addr.0 - self.spec_base(ri);
                    &&& self.spec_contains(guest_addr.0 as int)
                    &&& off + count <= self.spec_size(ri)
                    &&& v@ == self.spec_bytes(ri).subrange(off, off + count)
                },
                Err(e) => {
                    &&& e == GuestMemError::InvalidGuestAddressRange(guest_addr, count)
                    &&& !(self.spec_contains(guest_addr.0 as int) && guest_addr.0 - self.spec_base(
                        self.spec_region_of(guest_addr.0 as int),
                    ) + count <= self.spec_size(self.spec_region_of(guest_addr.0 as int)))
                },
            },
    {
        let idx: usize = match self.find_region(guest_addr) {
            Some(i) => i,
            None => {
                return Err(GuestMemError::InvalidGuestAddressRange(guest_addr, count));
            },
        };
        let offset: usize = guest_addr.0 - self.regions[idx].guest_base.0;
        let region_size: usize = self.regions[idx].mapping.size();
        if count > region_size - offset {
            return Err(GuestMemError::InvalidGuestAddressRange(guest_addr, count));
        }
        match self.regions[idx].mapping.write_from_memory(offset, count) {
            Ok(v) => Ok(v),
            Err(_) => Err(GuestMemError::MemoryAccess(guest_addr)),
        }
    }

    /// Flushes every region; the model's flush always succeeds.
    pub fn sync(&self) -> (r: Result<(), GuestMemError>)
        requires
            self.wf(),
        ensures
            r is Ok,
    {
        let n: usize = self.regions.len();
        let mut i: usize = 0;
        while i < n
            invariant
                0 <= i <= n,
                n == self.spec_len(),
                self.wf(),
            decreases n - i,
        {
            match self.regions[i].mapping.sync() {
                Ok(()) => {},
                Err(_) => {
                    return Err(GuestMemError::MemorySync);
                },
            }
            i = i + 1;
        }
        Ok(())
    }

    /// Calls `cb` once per region in storage order with the region's
    /// index, guest base and size, stopping at and returning the first
    /// error; success means every call returned success.
    pub fn with_regions<F, E>(&self, cb: F) -> (r: Result<(), E>) where
        F: Fn(usize, GuestAddress, usize) -> Result<(), E>,

        requires
            self.wf(),
            forall|i: usize, b: GuestAddress, s: usize| #[trigger] cb.requires((i, b, s)),
        ensures
            match r {
                Ok(()) => forall|i: int|
                    0 <= i < self.spec_len() ==> #[trigger] cb.ensures(
                        region_cb_args(*self, i),
                        Ok::<(), E>(()),
                    ),
                Err(e) => exists|i: int|
                    {
                        &&& 0 <= i < self.spec_len()
                        &&& #[trigger] cb.ensures(region_cb_args(*self, i), Err::<(), E>(e))
                        &&& forall|j: int|
                            0 <= j < i ==> #[trigger] cb.ensures(
                                region_cb_args(*self, j),
                                Ok::<(), E>(()),
                            )
                    },
            },
    {
        let n: usize = self.regions.len();
        let mut i: usize = 0;
        while i < n
            invariant
                0 <= i <= n,
                self.wf(),
                n == self.spec_len(),
                forall|i2: usize, b: GuestAddress, s: usize| #[trigger] cb.requires((i2, b, s)),
                forall|j: int|
                    0 <= j < i ==> #[trigger] cb.ensures(region_cb_args(*self, j), Ok::<(), E>(())),
            decreases n - i,
        {
            let base = self.regions[i].guest_base;
            let size: usize = self.regions[i].mapping.size();
            proof {
                assert(base == GuestAddress((self.spec_base(i as int)) as usize));
                assert((i, base, size) == region_cb_args(*self, i as int));
            }
            let res = cb(i, base, size);
            proof {
                assert(cb.ensures((i, base, size), res));
                assert(cb.ensures(region_cb_args(*self, i as int), res));
            }
            match res {
                Ok(u) => {
                    proof {
                        assert(u == ());
                        assert(res == Ok::<(), E>(()));
                        assert(cb.ensures(region_cb_args(*self, i as int), Ok::<(), E>(())));
                    }
                },
                Err(e) => {
                    proof {
                        assert(cb.ensures(region_cb_args(*self, i as int), Err::<(), E>(e)));
                    }
                    return Err(e);
                },
            }
            i = i + 1;
        }
        Ok(())
    }

    /// Maps every region through `mapf` and folds the results onto
    /// `init` with `foldf`, in region order: the result is the left fold
    /// of the per-region callback results.
    pub fn map_and_fold<F, G, T>(&self, init: T, mapf: F, foldf: G) -> (r: T) where
        F: Fn(usize, &MemoryRegion) -> T,
        G: Fn(T, T) -> T,

        requires
            self.wf(),
            forall|i: usize, reg: &MemoryRegion| #[trigger] mapf.requires((i, reg)),
            forall|a: T, b: T| #[trigger] foldf.requires((a, b)),
        ensures
            exists|vals: Seq<T>|
                {
                    &&& vals.len() == self.spec_len()
                    &&& (forall|i: int|
                        0 <= i < vals.len() ==> #[trigger] mapf.ensures(
                            (i as usize, &self.spec_region(i)),
                            vals[i],
                        ))
                    &&& #[trigger] folds_to(foldf, init, vals, r)
                },
    {
        let ghost init0 = init;
        let n: usize = self.regions.len();
        let mut acc: T = init;
        let mut i: usize = 0;
        let ghost mut vals: Seq<T> = Seq::empty();
        while i < n
            invariant
                0 <= i <= n,
                self.wf(),
                n == self.spec_len(),
                forall|i2: usize, reg: &MemoryRegion| #[trigger] mapf.requires((i2, reg)),
                forall|a: T, b: T| #[trigger] foldf.requires((a, b)),
                vals.len() == i,
                forall|j: int|
                    0 <= j < i ==> #[trigger] mapf.ensures(
                        (j as usize, &self.spec_region(j)),
                        vals[j],
                    ),
                folds_to(foldf, init0, vals, acc),
            decreases n - i,
        {
            let mapped: T = mapf(i, &self.regions[i]);
            proof {
                assert(mapf.ensures((i, &self.spec_region(i as int)), mapped));
            }
            let ghost acc0 = acc;
            acc = foldf(acc, mapped);
            proof {
                lemma_folds_to_push(foldf, init0, vals, acc0, mapped, acc);
                vals = vals.push(mapped);
            }
            i = i + 1;
        }
        acc
    }
}

} // verus!
