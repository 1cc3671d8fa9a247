//! Page-fault resolution arithmetic for a userfault handler: given the
//! registered ranges and a faulting address, compute the block to fill
//! and, for file- or memory-backed handlers, where to copy it from.

use vstd::prelude::*;

verus! {

/// An event read from a userfault file descriptor.
#[derive(Clone, Copy, Debug, PartialEq, Eq, Structural)]
pub enum Event {
    /// A page fault at `address`, with the kernel's flag bits.
    Fault { address: u64, flags: u64 },
}

/// A registered guest range together with the backing area its faults
/// are served from.
#[derive(Clone, Copy, Debug, PartialEq, Eq, Structural)]
pub struct FaultRange {
    /// First address of the registered range.
    pub start: u64,
    /// First address past the registered range.
    pub end: u64,
    /// Base of the backing area holding the range's contents.
    pub mmap_addr: u64,
}

/// A resolved fault: copy `len` bytes from `src` to `dst`.
#[derive(Clone, Copy, Debug, PartialEq, Eq, Structural)]
pub struct CopyCmd {
    /// Where the bytes come from, in the handler's address space.
    pub src: u64,
    /// The faulting block's first address.
    pub dst: u64,
    /// How many bytes to fill.
    pub len: u64,
}

/// The first address of the pseudo-page holding `address`.
pub open spec fn spec_page_base(address: u64, pseudo_page_size: u64) -> u64 {
    address & !((pseudo_page_size - 1) as u64)
}

/// Sane fault-handler ranges: non-empty span order and a backing area
/// that fits the address space.
pub open spec fn range_ok(r: FaultRange) -> bool {
    &&& r.start <= r.end
    &&& r.mmap_addr + (r.end - r.start) <= u64::MAX
}

/// The block to fill for a fault at `address` inside `[start, end)`: the
/// fault's pseudo-page clipped to the range.
pub fn fault_block(start: u64, end: u64, address: u64, pseudo_page_size: u64) -> (r: (u64, u64))
    requires
        pseudo_page_size >= 1,
        start <= address < end,
        address + pseudo_page_size <= u64::MAX,
    ensures
        ({
            let pb = spec_page_base(address, pseudo_page_size);
            &&& r.0 == if pb >= start {
                pb
            } else {
                start
            }
            &&& r.1 == (if pb + pseudo_page_size <= end {
                pb + pseudo_page_size
            } else {
                end as int
            }) - r.0
            &&& r.0 <= address < r.0 + r.1
            &&& r.0 + r.1 <= end
        }),
{
    let pseudo_addr: u64 = address & !(pseudo_page_size - 1);
    proof {
        let p = pseudo_page_size;
        assert(address & !((p - 1) as u64) <= address) by (bit_vector);
    }
    let pseudo_end: u64 = pseudo_addr + pseudo_page_size;
    let dst: u64 = if pseudo_addr >= start {
        pseudo_addr
    } else {
        start
    };
    let stop: u64 = if pseudo_end <= end {
        pseudo_end
    } else {
        end
    };
    proof {
        let p = pseudo_page_size;
        assert(address < (address & !((p - 1) as u64)) + p) by (bit_vector)
            requires
                p >= 1,
        ;
    }
    (dst, stop - dst)
}

/// Whether `r` covers `address`.
pub open spec fn range_covers(r: FaultRange, address: u64) -> bool {
    r.start <= address < r.end
}

/// Whether some range covers `address`.
pub open spec fn fault_covered(ranges: Seq<FaultRange>, address: u64) -> bool {
    exists|i: int| 0 <= i < ranges.len() && range_covers(#[trigger] ranges[i], address)
}

/// The first range covering `address`.
pub open spec fn fault_range_of(ranges: Seq<FaultRange>, address: u64) -> int
    decreases ranges.len(),
{
    if ranges.len() == 0 {
        0
    } else if ranges[0].start <= address < ranges[0].end {
        0
    } else {
        1 + fault_range_of(ranges.skip(1), address)
    }
}

proof fn lemma_fault_range_of(ranges: Seq<FaultRange>, address: u64, i: int)
    requires
        0 <= i < ranges.len(),
        ranges[i].start <= address < ranges[i].end,
        forall|j: int| 0 <= j < i ==> !range_covers(#[trigger] ranges[j], address),
    ensures
        fault_range_of(ranges, address) == i,
    decreases ranges.len(),
{
    if i > 0 {
        assert(forall|j: int| 0 <= j < ranges.skip(1).len() ==> ranges.skip(1)[j] == ranges[j + 1]);
        lemma_fault_range_of(ranges.skip(1), address, i - 1);
    }
}

/// Resolves a fault against the registered ranges: the copy that fills
/// the faulting block from the first covering range's backing area, or
/// nothing when no range covers the address.
pub fn resolve_fault(ranges: &Vec<FaultRange>, address: u64, pseudo_page_size: u64) -> (r: Option<
    CopyCmd,
>)
    requires
        pseudo_page_size >= 1,
        address + pseudo_page_size <= u64::MAX,
        forall|i: int| 0 <= i < ranges@.len() ==> range_ok(#[trigger] ranges@[i]),
    ensures
        match r {
            Some(cmd) => {
                let rg = ranges@[fault_range_of(ranges@, address)];
                let pb = spec_page_base(address, pseudo_page_size);
                &&& fault_covered(ranges@, address)
                &&& cmd.dst == if pb >= rg.start {
                    pb
                } else {
                    rg.start
                }
                &&& cmd.len == (if pb + pseudo_page_size <= rg.end {
                    pb + pseudo_page_size
                } else {
                    rg.end as int
                }) - cmd.dst
                &&& cmd.src == rg.mmap_addr + (cmd.dst - rg.start)
                &&& cmd.dst <= address < cmd.dst + cmd.len
                &&& cmd.dst + cmd.len <= rg.end
            },
            None => !fault_covered(ranges@, address),
        },
{
    let n: usize = ranges.len();
    let mut i: usize = 0;
    while i < n
        invariant
            0 <= i <= n,
            n == ranges@.len(),
            pseudo_page_size >= 1,
            address + pseudo_page_size <= u64::MAX,
            forall|k: int| 0 <= k < n ==> range_ok(#[trigger] ranges@[k]),
            forall|k: int| 0 <= k < i ==> !range_covers(#[trigger] ranges@[k], address),
        decreases n - i,
    {
        let rg = ranges[i];
        if rg.start <= address && address < rg.end {
            proof {
                assert(ranges@[i as int] == rg);
            }
            proof {
                assert(range_covers(ranges@[i as int], address));
                lemma_fault_range_of(ranges@, address, i as int);
            }
            let block = fault_block(rg.start, rg.end, address, pseudo_page_size);
            let offset: u64 = block.0 - rg.start;
            return Some(CopyCmd { src: rg.mmap_addr + offset, dst: block.0, len: block.1 });
        }
        proof {
            assert(!range_covers(ranges@[i as int], address));
        }
        i = i + 1;
    }
    None
}

/// Handler-wide settings; the pseudo page size is set once from the
/// configuration and read at fault time.
pub struct UffdSettings {
    pseudo_page_size: u64,
}

impl UffdSettings {
    /// The configured pseudo page size.
    pub closed spec fn spec_pseudo_page_size(self) -> u64 {
        self.pseudo_page_size
    }

    /// Settings with no page size configured yet.
    pub fn new() -> (r: UffdSettings)
        ensures
            r.spec_pseudo_page_size() == 0,
    {
        UffdSettings { pseudo_page_size: 0 }
    }

    /// Configures the pseudo page size.
    pub fn set_pseudo_page_size(&mut self, size: u64)
        ensures
            final(self).spec_pseudo_page_size() == size,
    {
        self.pseudo_page_size = size;
    }

    /// The configured pseudo page size.
    pub fn pseudo_page_size(&self) -> (r: u64)
        ensures
            r == self.spec_pseudo_page_size(),
    {
        self.pseudo_page_size
    }
}

} // verus!
