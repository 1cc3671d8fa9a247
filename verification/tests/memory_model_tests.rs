use std::cell::RefCell;
use vmm_core::address::GuestAddress;
use vmm_core::guest_memory::{GuestMemError, GuestMemory};
use vmm_core::mmap::{FileMemoryDesc, MemoryMapping, MmapError};

#[test]
fn basic_map() {
    let m = MemoryMapping::new_anon(1024).unwrap();
    assert_eq!(1024, m.size());
}

#[test]
fn map_invalid_size() {
    let res = MemoryMapping::new_anon(0);
    match res {
        Ok(_) => panic!("should panic!"),
        Err(err) => {
            if !matches!(err, MmapError::SystemCallFailed) {
                panic!("unexpected error: {:?}", err);
            }
        }
    }
}

#[test]
fn test_write_past_end() {
    let mut m = MemoryMapping::new_anon(5).unwrap();
    let res = m.write_slice(&[1, 2, 3, 4, 5, 6], 0);
    assert!(res.is_ok());
    assert_eq!(res.unwrap(), 5);
}

#[test]
fn slice_read_and_write() {
    let mut mem_map = MemoryMapping::new_anon(5).unwrap();
    let sample_buf = [1, 2, 3];
    assert!(mem_map.write_slice(&sample_buf, 5).is_err());
    assert!(mem_map.write_slice(&sample_buf, 2).is_ok());
    let mut buf = vec![0u8; 3];
    assert!(mem_map.read_slice(&mut buf, 5).is_err());
    assert!(mem_map.read_slice(&mut buf, 2).is_ok());
    assert_eq!(buf.as_slice(), sample_buf.as_slice());
}

#[test]
fn obj_read_and_write() {
    let mut mem_map = MemoryMapping::new_anon(5).unwrap();
    assert!(mem_map.write_obj(55u16, 4).is_err());
    assert!(mem_map.write_obj(55u16, usize::MAX).is_err());
    assert!(mem_map.write_obj(55u16, 2).is_ok());
    assert_eq!(mem_map.read_obj::<u16>(2).unwrap(), 55u16);
    assert!(mem_map.read_obj::<u16>(4).is_err());
    assert!(mem_map.read_obj::<u16>(usize::MAX).is_err());
}

#[test]
fn mem_read_and_write() {
    let mut mem_map = MemoryMapping::new_anon(5).unwrap();
    assert!(mem_map.write_obj(!0u32, 1).is_ok());
    let zeros = [0u8; 4];
    assert!(mem_map.read_to_memory(2, &zeros).is_err());
    assert!(mem_map.read_to_memory(usize::MAX, &zeros).is_err());
    assert!(mem_map.read_to_memory(1, &zeros).is_ok());
    assert_eq!(mem_map.read_obj::<u32>(1).unwrap(), 0);
    let sink = mem_map.write_from_memory(1, 4).unwrap();
    assert!(mem_map.write_from_memory(2, 4).is_err());
    assert!(mem_map.write_from_memory(usize::MAX, 4).is_err());
    assert_eq!(sink, vec![0; 4]);
}

#[test]
fn mapping_sync() {
    let m = MemoryMapping::new_anon(64).unwrap();
    assert!(m.sync().is_ok());
}

#[test]
fn test_regions() {
    // No regions provided should return error.
    assert_eq!(
        format!(
            "{:?}",
            GuestMemory::new_anon_from_tuples(&[]).err().unwrap()
        ),
        format!("{:?}", GuestMemError::NoMemoryRegions)
    );

    let start_addr1 = GuestAddress(0x0);
    let start_addr2 = GuestAddress(0x800);
    let guest_mem =
        GuestMemory::new_anon_from_tuples(&[(start_addr1, 0x400), (start_addr2, 0x400)]).unwrap();
    assert_eq!(guest_mem.num_regions(), 2);
    assert!(guest_mem.address_in_range(GuestAddress(0x200)));
    assert!(!guest_mem.address_in_range(GuestAddress(0x600)));
    assert!(guest_mem.address_in_range(GuestAddress(0xa00)));
    let end_addr = GuestAddress(0xc00);
    assert!(!guest_mem.address_in_range(end_addr));
    assert_eq!(guest_mem.end_addr(), end_addr);
    assert!(guest_mem.checked_offset(start_addr1, 0x900).is_some());
    assert!(guest_mem.checked_offset(start_addr1, 0x700).is_none());
    assert!(guest_mem.checked_offset(start_addr2, 0xc00).is_none());
    assert!(guest_mem.sync().is_ok());
}

#[test]
fn overlap_memory() {
    let start_addr1 = GuestAddress(0x0);
    let start_addr2 = GuestAddress(0x1000);
    let res = GuestMemory::new_anon_from_tuples(&[(start_addr1, 0x2000), (start_addr2, 0x2000)]);
    assert_eq!(
        format!("{:?}", res.err().unwrap()),
        format!("{:?}", GuestMemError::MemoryRegionOverlap)
    );
}

#[test]
fn test_read_u64() {
    let start_addr1 = GuestAddress(0x0);
    let start_addr2 = GuestAddress(0x1000);
    let bad_addr = GuestAddress(0x2001);
    let bad_addr2 = GuestAddress(0x1ffc);

    let mut gm =
        GuestMemory::new_anon_from_tuples(&[(start_addr1, 0x1000), (start_addr2, 0x1000)]).unwrap();

    let val1: u64 = 0xaa55_aa55_aa55_aa55;
    let val2: u64 = 0x55aa_55aa_55aa_55aa;
    assert_eq!(
        format!("{:?}", gm.write_obj_at_addr(val1, bad_addr).err().unwrap()),
        format!(
            "InvalidGuestAddressRange({:?}, {:?})",
            bad_addr,
            std::mem::size_of::<u64>()
        )
    );
    assert_eq!(
        format!("{:?}", gm.write_obj_at_addr(val1, bad_addr2).err().unwrap()),
        format!(
            "InvalidGuestAddressRange({:?}, {:?})",
            bad_addr2,
            std::mem::size_of::<u64>()
        )
    );

    gm.write_obj_at_addr(val1, GuestAddress(0x500)).unwrap();
    gm.write_obj_at_addr(val2, GuestAddress(0x1000 + 32)).unwrap();
    let num1: u64 = gm.read_obj_from_addr(GuestAddress(0x500)).unwrap();
    let num2: u64 = gm.read_obj_from_addr(GuestAddress(0x1000 + 32)).unwrap();
    assert_eq!(val1, num1);
    assert_eq!(val2, num2);
}

#[test]
fn write_and_read_slice() {
    let mut start_addr = GuestAddress(0x1000);
    let mut gm = GuestMemory::new_anon_from_tuples(&[(start_addr, 0x400)]).unwrap();
    let sample_buf = &[1, 2, 3, 4, 5];

    assert_eq!(gm.write_slice_at_addr(sample_buf, start_addr).unwrap(), 5);

    let mut buf = vec![0u8; 5];
    assert_eq!(gm.read_slice_at_addr(&mut buf, start_addr).unwrap(), 5);
    assert_eq!(buf.as_slice(), sample_buf.as_slice());

    start_addr = GuestAddress(0x13ff);
    assert_eq!(gm.write_slice_at_addr(sample_buf, start_addr).unwrap(), 1);
    assert_eq!(gm.read_slice_at_addr(&mut buf, start_addr).unwrap(), 1);
    assert_eq!(buf[0], sample_buf[0]);
}

#[test]
fn read_to_and_write_from_mem() {
    let mut gm = GuestMemory::new_anon_from_tuples(&[(GuestAddress(0x1000), 0x400)]).unwrap();
    let addr = GuestAddress(0x1010);
    gm.write_obj_at_addr(!0u32, addr).unwrap();
    let zeros = [0u8; 4];
    gm.read_to_memory(addr, &zeros).unwrap();
    let value: u32 = gm.read_obj_from_addr(addr).unwrap();
    assert_eq!(value, 0);

    let sink = gm.write_from_memory(addr, 4).unwrap();
    assert_eq!(sink, vec![0; 4]);
}

#[test]
fn bad_address_slice_io() {
    let mut gm = GuestMemory::new_anon_from_tuples(&[(GuestAddress(0x1000), 0x400)]).unwrap();
    let res = gm.write_slice_at_addr(&[1, 2, 3], GuestAddress(0x2000));
    assert_eq!(res.err().unwrap(), GuestMemError::InvalidGuestAddress(GuestAddress(0x2000)));
    let long = [7u8; 16];
    let res2 = gm.read_to_memory(GuestAddress(0x13f8), &long);
    assert_eq!(
        res2.err().unwrap(),
        GuestMemError::InvalidGuestAddressRange(GuestAddress(0x13f8), 16)
    );
}

#[test]
fn invalid_range_mapping_io() {
    let mut m = MemoryMapping::new_anon(8).unwrap();
    let data = [1u8; 16];
    assert_eq!(
        m.read_to_memory(4, &data).err().unwrap(),
        MmapError::InvalidRange(4, 16)
    );
    assert_eq!(
        m.write_from_memory(4, 16).err().unwrap(),
        MmapError::InvalidRange(4, 16)
    );
}

#[test]
fn create_vec_with_regions() {
    let region_size = 0x400;
    let regions = vec![
        (GuestAddress(0x0), region_size),
        (GuestAddress(0x1000), region_size),
    ];
    let iterated_regions = RefCell::new(Vec::new());
    let gm = GuestMemory::new_anon_from_tuples(&regions).unwrap();

    let res: Result<(), ()> = gm.with_regions(|_, _, size| {
        assert_eq!(size, region_size);
        Ok(())
    });
    assert!(res.is_ok());

    let res: Result<(), ()> = gm.with_regions(|_, guest_addr, size| {
        iterated_regions.borrow_mut().push((guest_addr, size));
        Ok(())
    });
    assert!(res.is_ok());
    assert_eq!(regions, iterated_regions.into_inner());
}

#[test]
fn test_map_fold() {
    let start_addr1 = GuestAddress(0x0);
    let start_addr2 = GuestAddress(0x400);
    let mem = GuestMemory::new_anon_from_tuples(&[(start_addr1, 1024), (start_addr2, 2048)]).unwrap();

    assert_eq!(
        mem.map_and_fold(0, |_, region| region.size() / 1024, |acc, size| acc + size),
        3
    );
}

#[test]
fn test_invalid_offset_for_range_descriptors() {
    let mut ranges = Vec::new();
    let range = FileMemoryDesc {
        gpa: GuestAddress(0),
        size: 1024,
        fd: 3,
        offset: 3, // mappings need page size multiples.
        shared: false,
    };
    ranges.push(range);
    let mem = GuestMemory::new_file_backed(&ranges);
    assert!(mem.is_err());

    let mut ranges = Vec::new();
    let range = FileMemoryDesc {
        gpa: GuestAddress(0),
        size: usize::MAX / 2 + 3, // offset + size overflows.
        fd: 3,
        offset: usize::MAX / 2, // offset + size overflows.
        shared: false,
    };

    ranges.push(range);
    let mem = GuestMemory::new_file_backed(&ranges);
    assert!(mem.is_err());
}

#[test]
fn test_valid_range_descriptors() {
    let mut ranges = Vec::new();
    let chunk_size = 0x0010_0000;
    let num_ranges = 5;
    for i in 0..num_ranges {
        let range = FileMemoryDesc {
            gpa: GuestAddress(i * chunk_size),
            size: chunk_size,
            fd: 3,
            offset: i * chunk_size,
            shared: false,
        };
        ranges.push(range);
    }
    let mem = GuestMemory::new_file_backed(&ranges);
    assert!(mem.is_ok());
    assert_eq!(mem.unwrap().num_regions(), num_ranges);
}

#[test]
fn test_overlapping_range_descriptors() {
    let chunk_size = 0x0010_0000;
    let num_ranges = 5;
    let fd = 3;
    let create_ranges = move || {
        let mut ranges = Vec::new();
        for i in 0..num_ranges {
            let range = FileMemoryDesc {
                gpa: GuestAddress(i * chunk_size),
                size: chunk_size,
                fd,
                offset: i * chunk_size,
                shared: false,
            };
            ranges.push(range);
        }
        ranges
    };

    let mut invalid_gpa_ranges = create_ranges();
    let invalid_range = FileMemoryDesc {
        gpa: GuestAddress(num_ranges * chunk_size / 2), // Overlaps with previous ranges.
        size: chunk_size,
        fd,
        offset: num_ranges * chunk_size,
        shared: false,
    };
    invalid_gpa_ranges.push(invalid_range);
    let mem = GuestMemory::new_file_backed(&invalid_gpa_ranges);
    assert!(mem.is_err());
    assert_eq!(
        format!("{:?}", mem.err().unwrap()),
        format!("{:?}", GuestMemError::MemoryRegionOverlap)
    );

    let mut invalid_offset_ranges = create_ranges();
    let invalid_range = FileMemoryDesc {
        gpa: GuestAddress(num_ranges * chunk_size),
        size: chunk_size,
        fd,
        offset: num_ranges * chunk_size / 2, // Overlaps with previous range.
        shared: false,
    };
    invalid_offset_ranges.push(invalid_range);
    let mem = GuestMemory::new_file_backed(&invalid_offset_ranges);
    assert!(mem.is_err());
    assert_eq!(
        format!("{:?}", mem.err().unwrap()),
        format!("{:?}", GuestMemError::MemoryRegionOverlap)
    );
}
