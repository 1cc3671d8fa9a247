//! A host memory mapping modelled as owned bytes, with bounds-checked
//! slice and typed object access.

use crate::address::GuestAddress;
use crate::pod::Pod;
use vstd::prelude::*;

verus! {

/// Granularity that file offsets of file-backed mappings must obey.
pub const PAGE_SIZE: usize = 4096;

/// Failures of mapping creation and mapping access.
#[derive(Clone, Copy, Debug, PartialEq, Eq, Structural)]
pub enum MmapError {
    /// Requested memory out of range.
    InvalidAddress,
    /// Requested memory range spans past the end of the region.
    InvalidRange(usize, usize),
    /// The mapping could not be created.
    SystemCallFailed,
}

/// Whether the half-open spans starting at `r1.0` and `r2.0` with the
/// respective lengths intersect; a span running past the address space
/// counts as overlapping.
pub open spec fn spec_range_overlap(range1: (usize, usize), range2: (usize, usize)) -> bool {
    let first = if range1.0 <= range2.0 {
        range1
    } else {
        range2
    };
    let second = if range1.0 <= range2.0 {
        range2
    } else {
        range1
    };
    first.0 + first.1 > second.0
}

/// Returns whether two `(start, length)` spans overlap.
pub fn range_overlap(range1: (usize, usize), range2: (usize, usize)) -> (r: bool)
    ensures
        r == spec_range_overlap(range1, range2),
{
    let first_start: usize = if range1.0 <= range2.0 {
        range1.0
    } else {
        range2.0
    };
    let second_start: usize = if range1.0 <= range2.0 {
        range2.0
    } else {
        range1.0
    };
    let first_size: usize = if first_start == range1.0 && range1.0 <= range2.0 {
        range1.1
    } else {
        range2.1
    };
    proof {
        if range1.0 <= range2.0 {
            assert(first_size == range1.1);
        } else {
            assert(first_size == range2.1);
        }
    }
    match first_start.checked_add(first_size) {
        Some(first_end) => first_end > second_start,
        None => true,
    }
}

/// Describes an anonymous memory region mapping.
#[derive(Clone, Copy, Debug, PartialEq, Eq, Structural)]
pub struct AnonMemoryDesc {
    /// Guest physical address.
    pub gpa: GuestAddress,
    /// Size of the memory region.
    pub size: usize,
}

impl AnonMemoryDesc {
    /// Whether the two described regions overlap in guest addresses.
    pub open spec fn spec_overlap(self, other: AnonMemoryDesc) -> bool {
        spec_range_overlap((self.gpa.0, self.size), (other.gpa.0, other.size))
    }

    /// Returns whether the two described regions overlap.
    pub fn overlap(&self, other: &AnonMemoryDesc) -> (r: bool)
        ensures
            r == self.spec_overlap(*other),
    {
        range_overlap((self.gpa.0, self.size), (other.gpa.0, other.size))
    }
}

/// Describes a file-backed memory region mapping.
#[derive(Clone, Copy, Debug, PartialEq, Eq, Structural)]
pub struct FileMemoryDesc {
    /// Guest physical address.
    pub gpa: GuestAddress,
    /// Size of the memory region.
    pub size: usize,
    /// File descriptor of the backing file.
    pub fd: i32,
    /// Offset in the file where the mapping starts.
    pub offset: usize,
    /// Whether the mapping is shared rather than private.
    pub shared: bool,
}

impl FileMemoryDesc {
    /// Whether the two described regions overlap in guest addresses, or
    /// in file ranges of the same backing file.
    pub open spec fn spec_overlap(self, other: FileMemoryDesc) -> bool {
        spec_range_overlap((self.gpa.0, self.size), (other.gpa.0, other.size)) || (self.fd
            == other.fd && spec_range_overlap(
            (self.offset, self.size),
            (other.offset, other.size),
        ))
    }

    /// Returns whether the two described regions overlap.  Overlap occurs
    /// when either the guest addresses or the backings overlap.
    pub fn overlap(&self, other: &FileMemoryDesc) -> (r: bool)
        ensures
            r == self.spec_overlap(*other),
    {
        range_overlap((self.gpa.0, self.size), (other.gpa.0, other.size)) || (self.fd == other.fd
            && range_overlap((self.offset, self.size), (other.offset, other.size)))
    }
}

/// The bytes `mem` with `data` written at offset `off`.
pub open spec fn splice_bytes(mem: Seq<u8>, off: int, data: Seq<u8>) -> Seq<u8> {
    mem.take(off) + data + mem.skip(off + data.len())
}

/// What a write leaves is exactly what a read at the same place returns.
pub proof fn lemma_slice_read_back(mem: Seq<u8>, off: int, data: Seq<u8>)
    requires
        0 <= off,
        off + data.len() <= mem.len(),
    ensures
        splice_bytes(mem, off, data).subrange(off, off + data.len()) == data,
        splice_bytes(mem, off, data).len() == mem.len(),
{
    assert(splice_bytes(mem, off, data).subrange(off, off + data.len()) =~= data);
}

/// Reading back a stored object's bytes yields the stored value.
pub proof fn lemma_obj_read_back<T: Pod>(mem: Seq<u8>, v: T, off: int)
    requires
        0 <= off,
        off + T::spec_size() <= mem.len(),
    ensures
        T::of_bytes(
            splice_bytes(mem, off, v.as_bytes()).subrange(off, off + T::spec_size() as int),
        ) == v,
{
    v.lemma_size();
    v.lemma_round_trip();
    assert(splice_bytes(mem, off, v.as_bytes()).subrange(off, off + T::spec_size() as int)
        =~= v.as_bytes());
}

/// One contiguous span of host memory backing a guest region.  The model
/// owns the bytes; access is bounds-checked slice or typed object I/O.
pub struct MemoryMapping {
    bytes: Vec<u8>,
}

impl View for MemoryMapping {
    type V = Seq<u8>;

    closed spec fn view(&self) -> Seq<u8> {
        self.bytes@
    }
}

impl MemoryMapping {
    /// An anonymous mapping of `size` zeroed bytes.  Fails exactly on a
    /// zero size, as the underlying page allocation would.
    pub fn new_anon(size: usize) -> (r: Result<MemoryMapping, MmapError>)
        ensures
            match r {
                Ok(m) => size > 0 && m@.len() == size && (forall|i: int|
                    0 <= i < size ==> m@[i] == 0u8),
                Err(e) => e == MmapError::SystemCallFailed && size == 0,
            },
    {
        if size == 0 {
            return Err(MmapError::SystemCallFailed);
        }
        Ok(MemoryMapping { bytes: vec![0u8; size] })
    }

    /// A mapping backed by a file range.  Fails exactly on a zero size,
    /// an offset that is not page-aligned, or a file range running past
    /// the address space.  The mapping starts zeroed; callers fill it
    /// from the file through `read_to_memory`.
    pub fn new_file_backed(descriptor: &FileMemoryDesc) -> (r: Result<MemoryMapping, MmapError>)
        ensures
            match r {
                Ok(m) => {
                    &&& descriptor.size > 0
                    &&& descriptor.offset % PAGE_SIZE as usize == 0
                    &&& descriptor.offset + descriptor.size <= usize::MAX
                    &&& m@.len() == descriptor.size
                    &&& forall|i: int| 0 <= i < descriptor.size ==> m@[i] == 0u8
                },
                Err(e) => {
                    &&& e == MmapError::SystemCallFailed
                    &&& !(descriptor.size > 0 && descriptor.offset % PAGE_SIZE as usize == 0
                        && descriptor.offset + descriptor.size <= usize::MAX)
                },
            },
    {
        if descriptor.size == 0 {
            return Err(MmapError::SystemCallFailed);
        }
        if descriptor.offset % PAGE_SIZE != 0 {
            return Err(MmapError::SystemCallFailed);
        }
        if descriptor.offset.checked_add(descriptor.size).is_none() {
            return Err(MmapError::SystemCallFailed);
        }
        Ok(MemoryMapping { bytes: vec![0u8; descriptor.size] })
    }

    /// The size of the mapping in bytes.
    pub fn size(&self) -> (r: usize)
        ensures
            r == self@.len(),
    {
        self.bytes.len()
    }

    /// Writes as much of `buf` as fits at `offset`, returning the count
    /// written: the full buffer, clipped at the end of the mapping, and
    /// never wrapping past it.  Fails exactly when `offset` is out of
    /// bounds.
    pub fn write_slice(&mut self, buf: &[u8], offset: usize) -> (r: Result<usize, MmapError>)
        ensures
            match r {
                Ok(n) => {
                    &&& offset < old(self)@.len()
                    &&& n == if buf@.len() <= old(self)@.len() - offset {
                        buf@.len() as int
                    } else {
                        old(self)@.len() - offset
                    }
                    &&& final(self)@ == splice_bytes(old(self)@, offset as int, buf@.take(n as int))
                },
                Err(e) => {
                    &&& e == MmapError::InvalidAddress
                    &&& offset >= old(self)@.len()
                    &&& *final(self) == *old(self)
                },
            },
    {
        let len: usize = self.bytes.len();
        if offset >= len {
            return Err(MmapError::InvalidAddress);
        }
        let n: usize = if buf.len() <= len - offset {
            buf.len()
        } else {
            len - offset
        };
        let mut i: usize = 0;
        while i < n
            invariant
                0 <= i <= n,
                n <= buf@.len(),
                offset + n <= self.bytes@.len(),
                offset + n <= usize::MAX,
                self.bytes@.len() == old(self)@.len(),
                forall|k: int| 0 <= k < i ==> self.bytes@[offset + k] == buf@[k],
                forall|k: int|
                    0 <= k < self.bytes@.len() && !(offset <= k < offset + i) ==> self.bytes@[k]
                        == old(self)@[k],
            decreases n - i,
        {
            self.bytes.set(offset + i, buf[i]);
            i = i + 1;
        }
        proof {
            assert(self.bytes@ =~= splice_bytes(old(self)@, offset as int, buf@.take(n as int)));
        }
        Ok(n)
    }

    /// Reads as much as fits into the front of `buf` from `offset`,
    /// returning the count read; the rest of `buf` is untouched.  Fails
    /// exactly when `offset` is out of bounds.
    pub fn read_slice(&self, buf: &mut Vec<u8>, offset: usize) -> (r: Result<usize, MmapError>)
        ensures
            match r {
                Ok(n) => {
                    &&& offset < self@.len()
                    &&& n == if old(buf)@.len() <= self@.len() - offset {
                        old(buf)@.len() as int
                    } else {
                        self@.len() - offset
                    }
                    &&& final(buf)@ == self@.subrange(offset as int, offset + n) + old(buf)@.skip(
                        n as int,
                    )
                },
                Err(e) => {
                    &&& e == MmapError::InvalidAddress
                    &&& offset >= self@.len()
                    &&& *final(buf) == *old(buf)
                },
            },
    {
        let len: usize = self.bytes.len();
        if offset >= len {
            return Err(MmapError::InvalidAddress);
        }
        let n: usize = if buf.len() <= len - offset {
            buf.len()
        } else {
            len - offset
        };
        let mut i: usize = 0;
        while i < n
            invariant
                0 <= i <= n,
                n <= buf@.len(),
                offset + n <= self.bytes@.len(),
                offset + n <= usize::MAX,
                buf@.len() == old(buf)@.len(),
                forall|k: int| 0 <= k < i ==> buf@[k] == self.bytes@[offset + k],
                forall|k: int| i <= k < buf@.len() ==> buf@[k] == old(buf)@[k],
            decreases n - i,
        {
            let b: u8 = self.bytes[offset + i];
            buf.set(i, b);
            i = i + 1;
        }
        proof {
            assert(buf@ =~= self@.subrange(offset as int, offset + n as int) + old(buf)@.skip(
                n as int,
            ));
        }
        Ok(n)
    }

    /// Stores `val` at `offset`, all or nothing: it succeeds exactly when
    /// the whole object lies inside the mapping.
    pub fn write_obj<T: Pod>(&mut self, val: T, offset: usize) -> (r: Result<(), MmapError>)
        ensures
            match r {
                Ok(()) => {
                    &&& offset + T::spec_size() <= old(self)@.len()
                    &&& final(self)@ == splice_bytes(old(self)@, offset as int, val.as_bytes())
                },
                Err(e) => {
                    &&& e == MmapError::InvalidAddress
                    &&& offset + T::spec_size() > old(self)@.len()
                    &&& *final(self) == *old(self)
                },
            },
    {
        let sz: usize = T::size();
        let len: usize = self.bytes.len();
        if offset > len || sz > len - offset {
            return Err(MmapError::InvalidAddress);
        }
        let data: Vec<u8> = val.to_le_bytes();
        proof {
            val.lemma_size();
        }
        let mut i: usize = 0;
        while i < sz
            invariant
                0 <= i <= sz,
                sz == data@.len(),
                data@ == val.as_bytes(),
                offset + sz <= self.bytes@.len(),
                offset + sz <= usize::MAX,
                self.bytes@.len() == old(self)@.len(),
                forall|k: int| 0 <= k < i ==> self.bytes@[offset + k] == data@[k],
                forall|k: int|
                    0 <= k < self.bytes@.len() && !(offset <= k < offset + i) ==> self.bytes@[k]
                        == old(self)@[k],
            decreases sz - i,
        {
            self.bytes.set(offset + i, data[i]);
            i = i + 1;
        }
        proof {
            assert(self.bytes@ =~= splice_bytes(old(self)@, offset as int, val.as_bytes()));
        }
        Ok(())
    }

    /// Loads the object stored at `offset`, all or nothing: it succeeds
    /// exactly when the whole object lies inside the mapping.
    pub fn read_obj<T: Pod>(&self, offset: usize) -> (r: Result<T, MmapError>)
        ensures
            match r {
                Ok(v) => {
                    &&& offset + T::spec_size() <= self@.len()
                    &&& v == T::of_bytes(
                        self@.subrange(offset as int, offset + T::spec_size() as int),
                    )
                },
                Err(e) => {
                    &&& e == MmapError::InvalidAddress
                    &&& offset + T::spec_size() > self@.len()
                },
            },
    {
        let sz: usize = T::size();
        let len: usize = self.bytes.len();
        if offset > len || sz > len - offset {
            return Err(MmapError::InvalidAddress);
        }
        let whole: &[u8] = self.bytes.as_slice();
        let part: &[u8] = &whole[offset..offset + sz];
        Ok(T::from_le_bytes(part))
    }

    /// Writes exactly the bytes of `src` at `mem_offset`, or fails with
    /// the offending range when they do not all fit.
    pub fn read_to_memory(&mut self, mem_offset: usize, src: &[u8]) -> (r: Result<(), MmapError>)
        ensures
            match r {
                Ok(()) => {
                    &&& mem_offset + src@.len() <= old(self)@.len()
                    &&& final(self)@ == splice_bytes(old(self)@, mem_offset as int, src@)
                },
                Err(e) => {
                    &&& e == MmapError::InvalidRange(mem_offset, src@.len() as usize)
                    &&& mem_offset + src@.len() > old(self)@.len()
                    &&& *final(self) == *old(self)
                },
            },
    {
        let count: usize = src.len();
        let len: usize = self.bytes.len();
        if mem_offset > len || count > len - mem_offset {
            return Err(MmapError::InvalidRange(mem_offset, count));
        }
        let mut i: usize = 0;
        while i < count
            invariant
                0 <= i <= count,
                count == src@.len(),
                mem_offset + count <= self.bytes@.len(),
                mem_offset + count <= usize::MAX,
                self.bytes@.len() == old(self)@.len(),
                forall|k: int| 0 <= k < i ==> self.bytes@[mem_offset + k] == src@[k],
                forall|k: int|
                    0 <= k < self.bytes@.len() && !(mem_offset <= k < mem_offset + i)
                        ==> self.bytes@[k] == old(self)@[k],
            decreases count - i,
        {
            self.bytes.set(mem_offset + i, src[i]);
            i = i + 1;
        }
        proof {
            assert(self.bytes@ =~= splice_bytes(old(self)@, mem_offset as int, src@));
        }
        Ok(())
    }

    /// Reads exactly `count` bytes starting at `mem_offset`, or fails
    /// with the offending range when they do not all lie inside.
    pub fn write_from_memory(&self, mem_offset: usize, count: usize) -> (r: Result<
        Vec<u8>,
        MmapError,
    >)
        ensures
            match r {
                Ok(v) => {
                    &&& mem_offset + count <= self@.len()
                    &&& v@ == self@.subrange(mem_offset as int, mem_offset + count)
                },
                Err(e) => {
                    &&& e == MmapError::InvalidRange(mem_offset, count)
                    &&& mem_offset + count > self@.len()
                },
            },
    {
        let len: usize = self.bytes.len();
        if mem_offset > len || count > len - mem_offset {
            return Err(MmapError::InvalidRange(mem_offset, count));
        }
        let whole: &[u8] = self.bytes.as_slice();
        let part: &[u8] = &whole[mem_offset..mem_offset + count];
        Ok(vstd::slice::slice_to_vec(part))
    }

    /// Flushes the mapping.  The model owns its bytes for the mapping's
    /// whole lifetime, so the flush always succeeds.
    pub fn sync(&self) -> (r: Result<(), MmapError>)
        ensures
            r is Ok,
    {
        Ok(())
    }
}

} // verus!
