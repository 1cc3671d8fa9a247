use vmm_core::address::GuestAddress;
use vmm_core::device_config::VfioDeviceConfig;
use vmm_core::fault::{fault_block, resolve_fault, CopyCmd, FaultRange, UffdSettings};
use vmm_core::guest_memory::GuestMemory;
use vmm_core::queue::{DescriptorHead, VirtQueue};
use vmm_core::codec::{Reader, Versionize};
use vmm_core::version_map::VersionMap;
use vmm_core::vsock::{
    BackendError, Vsock, VsockBackend, VsockConstructorArgs, VsockPacket, VsockState,
    AVAIL_FEATURES, VIRTIO_ID_VSOCK, VIRTIO_MMIO_INT_VRING,
};

struct TestBackend {
    rx_ok: bool,
    tx_ok: bool,
    rx_fill: u32,
}

impl TestBackend {
    fn new() -> TestBackend {
        TestBackend { rx_ok: true, tx_ok: true, rx_fill: 10 }
    }
}

impl VsockBackend for TestBackend {
    fn recv_pkt(&mut self, pkt: &mut VsockPacket) -> Result<(), BackendError> {
        if self.rx_ok {
            pkt.fill(self.rx_fill);
            Ok(())
        } else {
            Err(BackendError::WouldBlock)
        }
    }

    fn send_pkt(&mut self, _pkt: &VsockPacket) -> Result<(), BackendError> {
        if self.tx_ok {
            Ok(())
        } else {
            Err(BackendError::WouldBlock)
        }
    }
}

fn test_mem() -> GuestMemory {
    GuestMemory::new_anon_from_tuples(&[(GuestAddress(0), 4096)]).unwrap()
}

#[test]
fn test_persistence() {
    let cid: u64 = 32;
    let device = Vsock::new(cid, TestBackend::new());
    let device_features = AVAIL_FEATURES;
    let driver_features: u64 = AVAIL_FEATURES | 1 | (1 << 32);
    let device_pages = [
        (device_features & 0xffff_ffff) as u32,
        (device_features >> 32) as u32,
    ];
    let driver_pages = [
        (driver_features & 0xffff_ffff) as u32,
        (driver_features >> 32) as u32,
    ];

    // Test serialization.
    let mut mem = Vec::new();
    let version_map = VersionMap::new();
    device
        .save()
        .serialize(&mut mem, &version_map, 1)
        .unwrap();

    let state = VsockState::deserialize(&mut Reader::new(&mem), &version_map, 1).unwrap();
    let mut restored_device = Vsock::restore(
        VsockConstructorArgs { mem: test_mem(), backend: TestBackend::new() },
        state,
    );

    assert_eq!(restored_device.device_type(), VIRTIO_ID_VSOCK);
    assert_eq!(restored_device.avail_features_by_page(0), device_pages[0]);
    assert_eq!(restored_device.avail_features_by_page(1), device_pages[1]);
    assert_eq!(restored_device.avail_features_by_page(2), 0);

    restored_device.ack_features_by_page(0, driver_pages[0]);
    restored_device.ack_features_by_page(1, driver_pages[1]);
    restored_device.ack_features_by_page(2, 0);
    restored_device.ack_features_by_page(0, !driver_pages[0]);
    assert_eq!(
        restored_device.acked_features(),
        device_features & driver_features
    );

    // Test reading 32-bit chunks.
    let mut low = vec![0u8; 4];
    restored_device.read_config(0, &mut low);
    assert_eq!(
        u64::from(u32::from_le_bytes([low[0], low[1], low[2], low[3]])),
        cid & 0xffff_ffff
    );
    let mut high = vec![0u8; 4];
    restored_device.read_config(4, &mut high);
    assert_eq!(
        u64::from(u32::from_le_bytes([high[0], high[1], high[2], high[3]])),
        (cid >> 32) & 0xffff_ffff
    );

    // Test reading 64-bit.
    let mut data = vec![0u8; 8];
    restored_device.read_config(0, &mut data);
    assert_eq!(
        u64::from_le_bytes([
            data[0], data[1], data[2], data[3], data[4], data[5], data[6], data[7]
        ]),
        cid
    );

    // Check that out-of-bounds reading doesn't mutate the destination buffer.
    let mut data = vec![0u8, 1, 2, 3, 4, 5, 6, 7];
    restored_device.read_config(2, &mut data);
    assert_eq!(data, vec![0u8, 1, 2, 3, 4, 5, 6, 7]);

    // The vsock device has no writable configuration.
    restored_device.write_config(0, &vec![0u8; 4]);
    assert_eq!(restored_device.acked_features(), device_features & driver_features);
}

#[test]
fn test_virtio_device() {
    let cid: u64 = 32;
    let mut device = Vsock::new(cid, TestBackend::new());
    let device_features = AVAIL_FEATURES;
    let driver_features: u64 = AVAIL_FEATURES | 1 | (1 << 32);
    let device_pages = [
        (device_features & 0xffff_ffff) as u32,
        (device_features >> 32) as u32,
    ];
    let driver_pages = [
        (driver_features & 0xffff_ffff) as u32,
        (driver_features >> 32) as u32,
    ];
    assert_eq!(device.device_type(), VIRTIO_ID_VSOCK);
    assert_eq!(device.avail_features_by_page(0), device_pages[0]);
    assert_eq!(device.avail_features_by_page(1), device_pages[1]);
    assert_eq!(device.avail_features_by_page(2), 0);

    // Ack device features, page 0.
    device.ack_features_by_page(0, driver_pages[0]);
    // Ack device features, page 1.
    device.ack_features_by_page(1, driver_pages[1]);
    // Ack some bogus page. This should have no side effect.
    device.ack_features_by_page(2, 0);
    // Attempt to un-ack the first feature page. This should have no side effect.
    device.ack_features_by_page(0, !driver_pages[0]);
    // The acked features must be exactly the advertised ones the driver asked
    // for.
    assert_eq!(device.acked_features(), device_features & driver_features);

    // Test reading 32-bit chunks.
    let mut low = vec![0u8; 4];
    device.read_config(0, &mut low);
    assert_eq!(
        u64::from(u32::from_le_bytes([low[0], low[1], low[2], low[3]])),
        cid & 0xffff_ffff
    );
    let mut high = vec![0u8; 4];
    device.read_config(4, &mut high);
    assert_eq!(
        u64::from(u32::from_le_bytes([high[0], high[1], high[2], high[3]])),
        (cid >> 32) & 0xffff_ffff
    );

    // Test reading 64-bit.
    let mut data = vec![0u8; 8];
    device.read_config(0, &mut data);
    assert_eq!(
        u64::from_le_bytes([
            data[0], data[1], data[2], data[3], data[4], data[5], data[6], data[7]
        ]),
        cid
    );

    // Check that out-of-bounds reading doesn't mutate the destination buffer.
    let mut data = vec![0u8, 1, 2, 3, 4, 5, 6, 7];
    device.read_config(2, &mut data);
    assert_eq!(data, vec![0u8, 1, 2, 3, 4, 5, 6, 7]);

    // The vsock device has no writable configuration.
    device.write_config(0, &vec![0u8; 4]);

    // Test a correct activation.
    device.activate(test_mem()).unwrap();
}

#[test]
fn vsock_activate() {
    let mut device = Vsock::new(19, TestBackend::new());
    assert_eq!(device.device_type(), VIRTIO_ID_VSOCK);
    assert_eq!(
        device.avail_features_by_page(0),
        (AVAIL_FEATURES & 0xffff_ffff) as u32
    );
    assert_eq!(device.avail_features_by_page(2), 0);
    assert!(!device.is_activated());
    device.activate(test_mem()).unwrap();
    assert!(device.is_activated());
    // A single token was written to the activation notifier.
    assert_eq!(device.take_activate_event(), 1);
}

#[test]
fn rx_pump_in_order() {
    let mut rx = VirtQueue::new(256);
    rx.offer(DescriptorHead { index: 3, len: 64 });
    rx.offer(DescriptorHead { index: 1, len: 100 });
    rx.offer(DescriptorHead { index: 4, len: 10 });
    let queues = vec![rx, VirtQueue::new(256), VirtQueue::new(256)];
    let mut device = Vsock::with_queues(7, TestBackend::new(), queues);
    device.activate(test_mem()).unwrap();

    assert!(device.process_rx());
    let state = device.save();
    let used = &state.queues[0];
    assert_eq!(used.used_len(), 3);
    // Buffers are used in the order they were made available.
    assert_eq!(used.used_at(0).index, 3);
    assert_eq!(used.used_at(0).len, 44 + 10);
    assert_eq!(used.used_at(1).index, 1);
    assert_eq!(used.used_at(1).len, 44 + 10);
    // A chain too short for a packet header is returned with length zero.
    assert_eq!(used.used_at(2).index, 4);
    assert_eq!(used.used_at(2).len, 0);
}

#[test]
fn rx_pump_backpressure() {
    let mut rx = VirtQueue::new(256);
    rx.offer(DescriptorHead { index: 0, len: 64 });
    let queues = vec![rx, VirtQueue::new(256), VirtQueue::new(256)];
    let backend = TestBackend { rx_ok: false, tx_ok: true, rx_fill: 0 };
    let mut device = Vsock::with_queues(7, backend, queues);
    device.activate(test_mem()).unwrap();

    // The backend has nothing: the buffer stays available for next time.
    assert!(!device.process_rx());
    let state = device.save();
    assert_eq!(state.queues[0].used_len(), 0);
}

#[test]
fn tx_pump_in_order() {
    let mut tx = VirtQueue::new(256);
    tx.offer(DescriptorHead { index: 2, len: 50 });
    tx.offer(DescriptorHead { index: 9, len: 3 });
    tx.offer(DescriptorHead { index: 5, len: 80 });
    let queues = vec![VirtQueue::new(256), tx, VirtQueue::new(256)];
    let mut device = Vsock::with_queues(7, TestBackend::new(), queues);
    device.activate(test_mem()).unwrap();

    assert!(device.process_tx());
    let state = device.save();
    let used = &state.queues[1];
    assert_eq!(used.used_len(), 3);
    assert_eq!(used.used_at(0).index, 2);
    assert_eq!(used.used_at(0).len, 0);
    assert_eq!(used.used_at(1).index, 9);
    assert_eq!(used.used_at(1).len, 0);
    assert_eq!(used.used_at(2).index, 5);
    assert_eq!(used.used_at(2).len, 0);
}

#[test]
fn tx_pump_backpressure() {
    let mut tx = VirtQueue::new(256);
    tx.offer(DescriptorHead { index: 2, len: 50 });
    let queues = vec![VirtQueue::new(256), tx, VirtQueue::new(256)];
    let backend = TestBackend { rx_ok: true, tx_ok: false, rx_fill: 0 };
    let mut device = Vsock::with_queues(7, backend, queues);
    device.activate(test_mem()).unwrap();

    assert!(!device.process_tx());
    let state = device.save();
    assert_eq!(state.queues[1].used_len(), 0);
}

#[test]
fn bad_activate_queue_count() {
    let queues = vec![VirtQueue::new(256), VirtQueue::new(256)];
    let mut device = Vsock::with_queues(7, TestBackend::new(), queues);
    assert!(device.activate(test_mem()).is_err());
    assert!(!device.is_activated());
}

#[test]
fn signal_used_queue_sets_bit() {
    let mut device = Vsock::new(5, TestBackend::new());
    assert_eq!(device.interrupt_status(), 0);
    device.signal_used_queue().unwrap();
    // The status bit is set, and one token reached the notifier: an
    // observer woken by the notification sees the bit.
    assert_eq!(
        device.interrupt_status() & VIRTIO_MMIO_INT_VRING as u64,
        VIRTIO_MMIO_INT_VRING as u64
    );
    assert_eq!(device.take_interrupt_event(), 1);
    device.signal_used_queue().unwrap();
    device.signal_used_queue().unwrap();
    assert_eq!(device.take_interrupt_event(), 2);
}

#[test]
fn vsock_save_restore_round_trip() {
    let mut device = Vsock::new(77, TestBackend::new());
    device.ack_features_by_page(1, 0xffff_ffff);
    device.activate(test_mem()).unwrap();
    let state = device.save();
    assert!(state.activated);
    assert_eq!(state.cid, 77);

    let restored = Vsock::restore(
        VsockConstructorArgs { mem: test_mem(), backend: TestBackend::new() },
        state,
    );
    assert!(restored.is_activated());
    assert_eq!(restored.cid(), 77);
    assert_eq!(restored.acked_features(), device.acked_features());
}

#[test]
fn fault_resolution_aligned() {
    let ranges = vec![FaultRange { start: 0x1000, end: 0x3000, mmap_addr: 0x9000 }];
    let cmd = resolve_fault(&ranges, 0x1234, 0x1000).unwrap();
    assert_eq!(cmd, CopyCmd { src: 0x9000, dst: 0x1000, len: 0x1000 });
    let cmd2 = resolve_fault(&ranges, 0x2c00, 0x1000).unwrap();
    assert_eq!(cmd2, CopyCmd { src: 0xa000, dst: 0x2000, len: 0x1000 });
    assert!(resolve_fault(&ranges, 0x4000, 0x1000).is_none());
}

#[test]
fn fault_resolution_clipped() {
    // The pseudo-page starts before the registered range: the copy is
    // clipped to the range.
    let ranges = vec![FaultRange { start: 0x1800, end: 0x2000, mmap_addr: 0x9000 }];
    let cmd = resolve_fault(&ranges, 0x1900, 0x1000).unwrap();
    assert_eq!(cmd, CopyCmd { src: 0x9000, dst: 0x1800, len: 0x800 });
    let block = fault_block(0x1800, 0x2000, 0x1900, 0x1000);
    assert_eq!(block, (0x1800, 0x800));
}

#[test]
fn uffd_settings_round_trip() {
    let mut settings = UffdSettings::new();
    assert_eq!(settings.pseudo_page_size(), 0);
    settings.set_pseudo_page_size(4096);
    assert_eq!(settings.pseudo_page_size(), 4096);
}

#[test]
fn vfio_device_config_path() {
    let cfg = VfioDeviceConfig::new("/sys/bus/pci/devices/0000:18:00.0/".to_string());
    assert_eq!(cfg.path, "/sys/bus/pci/devices/0000:18:00.0/");
}
