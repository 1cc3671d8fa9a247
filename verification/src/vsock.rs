//! Virtio vsock device model: feature negotiation, configuration space,
//! activation, RX/TX descriptor pumping against a pluggable backend, and
//! save/restore of the serializable state.

use crate::codec::{Reader, Versionize, VersionizeError};
use crate::guest_memory::GuestMemory;
use crate::queue::{DescriptorHead, VirtQueue};
use crate::version_map::VersionMap;
use vstd::bytes::*;
use vstd::prelude::*;

verus! {

/// Index of the receive queue.
pub const RXQ_INDEX: usize = 0;

/// Index of the transmit queue.
pub const TXQ_INDEX: usize = 1;

/// Index of the event queue.
pub const EVQ_INDEX: usize = 2;

/// How many queues a vsock device drives.
pub const NUM_QUEUES: usize = 3;

/// Size of each queue.
pub const QUEUE_SIZE: u16 = 256;

/// Feature bit: the device conforms to at least virtio 1.0.
pub const VIRTIO_F_VERSION_1: u64 = 32;

/// Feature bit: buffers are used in the order they were made available.
pub const VIRTIO_F_IN_ORDER: u64 = 35;

/// The features the device advertises.
pub const AVAIL_FEATURES: u64 = (1u64 << 32) | (1u64 << 35);

/// Virtio device type of a vsock device.
pub const VIRTIO_ID_VSOCK: u32 = 19;

/// Interrupt-status bit: a used ring was written.
pub const VIRTIO_MMIO_INT_VRING: u32 = 1;

/// Byte size of a vsock packet header.
pub const VSOCK_PKT_HDR_SIZE: u32 = 44;

/// Failure to activate the device.
#[derive(Clone, Copy, Debug, PartialEq, Eq, Structural)]
pub enum ActivateError {
    /// The device does not have exactly the expected queues.
    BadActivate,
}

/// Failure while running the device.
#[derive(Clone, Copy, Debug, PartialEq, Eq, Structural)]
pub enum DeviceError {
    /// The interrupt could not be delivered.
    FailedSignalingUsedQueue,
}

/// Failure to parse a descriptor chain as a packet.
#[derive(Clone, Copy, Debug, PartialEq, Eq, Structural)]
pub enum PacketError {
    /// The chain is too short to hold a packet header.
    BufferTooSmall,
}

/// A backend's way of declining work.
#[derive(Clone, Copy, Debug, PartialEq, Eq, Structural)]
pub enum BackendError {
    /// No inbound data is ready, or outbound data cannot be accepted now.
    WouldBlock,
}

/// Counter model of an event file descriptor: writes add to the count,
/// saturating; a read takes the whole count.
pub struct EventNotifier {
    count: u64,
}

impl EventNotifier {
    /// The pending count.
    pub closed spec fn spec_count(self) -> u64 {
        self.count
    }

    /// A notifier with nothing pending.
    pub fn new() -> (r: EventNotifier)
        ensures
            r.spec_count() == 0,
    {
        EventNotifier { count: 0 }
    }

    /// Adds `v` to the pending count, saturating at the maximum.
    pub fn write(&mut self, v: u64)
        ensures
            final(self).spec_count() == if old(self).spec_count() + v <= u64::MAX {
                (old(self).spec_count() + v) as u64
            } else {
                u64::MAX
            },
    {
        if v > u64::MAX - self.count {
            self.count = u64::MAX;
        } else {
            self.count = self.count + v;
        }
    }

    /// Takes and clears the pending count.
    pub fn read(&mut self) -> (r: u64)
        ensures
            r == old(self).spec_count(),
            final(self).spec_count() == 0,
    {
        let r = self.count;
        self.count = 0;
        r
    }
}

/// View over one descriptor chain split into a header region and a
/// payload region.
pub struct VsockPacket {
    hdr_len: u32,
    payload_capacity: u32,
    payload_len: u32,
}

impl VsockPacket {
    /// Byte size of the header region.
    pub closed spec fn spec_hdr_len(self) -> u32 {
        self.hdr_len
    }

    /// Byte capacity of the payload region.
    pub closed spec fn spec_capacity(self) -> u32 {
        self.payload_capacity
    }

    /// Bytes currently held in the payload region.
    pub closed spec fn spec_len(self) -> u32 {
        self.payload_len
    }

    /// The payload never exceeds its region, and the whole chain fits
    /// the 32-bit used length.
    pub closed spec fn wf(self) -> bool {
        &&& self.payload_len <= self.payload_capacity
        &&& self.hdr_len + self.payload_capacity <= u32::MAX
    }

    /// Parses a chain offered on the receive queue: an empty packet to
    /// be filled.  Fails exactly when the chain cannot hold a header.
    pub fn from_rx_virtq_head(head: &DescriptorHead) -> (r: Result<VsockPacket, PacketError>)
        ensures
            match r {
                Ok(p) => {
                    &&& head.len >= VSOCK_PKT_HDR_SIZE
                    &&& p.wf()
                    &&& p.spec_hdr_len() == VSOCK_PKT_HDR_SIZE
                    &&& p.spec_hdr_len() + p.spec_capacity() == head.len
                    &&& p.spec_len() == 0
                },
                Err(e) => {
                    &&& e == PacketError::BufferTooSmall
                    &&& head.len < VSOCK_PKT_HDR_SIZE
                },
            },
    {
        if head.len < VSOCK_PKT_HDR_SIZE {
            return Err(PacketError::BufferTooSmall);
        }
        Ok(
            VsockPacket {
                hdr_len: VSOCK_PKT_HDR_SIZE,
                payload_capacity: head.len - VSOCK_PKT_HDR_SIZE,
                payload_len: 0,
            },
        )
    }

    /// Parses a chain offered on the transmit queue: the payload region
    /// arrives full.  Fails exactly when the chain cannot hold a header.
    pub fn from_tx_virtq_head(head: &DescriptorHead) -> (r: Result<VsockPacket, PacketError>)
        ensures
            match r {
                Ok(p) => {
                    &&& head.len >= VSOCK_PKT_HDR_SIZE
                    &&& p.wf()
                    &&& p.spec_hdr_len() == VSOCK_PKT_HDR_SIZE
                    &&& p.spec_hdr_len() + p.spec_capacity() == head.len
                    &&& p.spec_len() == p.spec_capacity()
                },
                Err(e) => {
                    &&& e == PacketError::BufferTooSmall
                    &&& head.len < VSOCK_PKT_HDR_SIZE
                },
            },
    {
        if head.len < VSOCK_PKT_HDR_SIZE {
            return Err(PacketError::BufferTooSmall);
        }
        Ok(
            VsockPacket {
                hdr_len: VSOCK_PKT_HDR_SIZE,
                payload_capacity: head.len - VSOCK_PKT_HDR_SIZE,
                payload_len: head.len - VSOCK_PKT_HDR_SIZE,
            },
        )
    }

    /// Byte size of the header region.
    pub fn hdr_len(&self) -> (r: u32)
        ensures
            r == self.spec_hdr_len(),
    {
        self.hdr_len
    }

    /// Bytes currently held in the payload region.
    pub fn len(&self) -> (r: u32)
        ensures
            r == self.spec_len(),
    {
        self.payload_len
    }

    /// Byte capacity of the payload region.
    pub fn capacity(&self) -> (r: u32)
        ensures
            r == self.spec_capacity(),
    {
        self.payload_capacity
    }

    /// Fills the payload with `count` bytes, clipped to the capacity;
    /// returns how many were accepted.
    pub fn fill(&mut self, count: u32) -> (accepted: u32)
        requires
            old(self).wf(),
        ensures
            final(self).wf(),
            final(self).spec_hdr_len() == old(self).spec_hdr_len(),
            final(self).spec_capacity() == old(self).spec_capacity(),
            final(self).spec_len() == if count <= old(self).spec_capacity() {
                count
            } else {
                old(self).spec_capacity()
            },
            accepted == final(self).spec_len(),
    {
        let n: u32 = if count <= self.payload_capacity {
            count
        } else {
            self.payload_capacity
        };
        self.payload_len = n;
        n
    }
}

/// What the device drives for packet input and output.  Implementations
/// only fill or drain the payload: a packet's shape is preserved.
pub trait VsockBackend {
    /// Fills `pkt` with the next inbound packet, or reports that none is
    /// ready.
    fn recv_pkt(&mut self, pkt: &mut VsockPacket) -> (r: Result<(), BackendError>)
        requires
            old(pkt).wf(),
        ensures
            final(pkt).wf(),
            final(pkt).spec_hdr_len() == old(pkt).spec_hdr_len(),
            final(pkt).spec_capacity() == old(pkt).spec_capacity(),
    ;

    /// Accepts an outbound packet, or reports backpressure.
    fn send_pkt(&mut self, pkt: &VsockPacket) -> (r: Result<(), BackendError>)
    ;
}

/// Whether the device has been activated, and with which guest memory.
pub enum DeviceStatus {
    /// Not yet activated.
    Inactive,
    /// Activated with the guest memory handed over at activation.
    Activated(GuestMemory),
}

/// The serializable part of a vsock device.
pub struct VsockState {
    /// The guest context id.
    pub cid: u64,
    /// The RX, TX and event queues, in that order.
    pub queues: Vec<VirtQueue>,
    /// The features the device advertises.
    pub avail_features: u64,
    /// The features the driver has acknowledged.
    pub acked_features: u64,
    /// Pending interrupt bits.
    pub interrupt_status: u64,
    /// Whether the device was activated.
    pub activated: bool,
}

/// The constructor arguments that are not serialized.
pub struct VsockConstructorArgs<B> {
    /// Guest memory to activate the restored device with.
    pub mem: GuestMemory,
    /// A freshly built backend.
    pub backend: B,
}

/// Host side of a virtio vsock device.
pub struct Vsock<B> {
    queue_events: Vec<EventNotifier>,
    backend: B,
    interrupt_evt: EventNotifier,
    activate_evt: EventNotifier,
    device_status: DeviceStatus,
    state: VsockState,
}

impl<B> Vsock<B> {
    /// The guest context id.
    pub closed spec fn spec_cid(self) -> u64 {
        self.state.cid
    }

    /// The advertised features.
    pub closed spec fn spec_avail_features(self) -> u64 {
        self.state.avail_features
    }

    /// The acknowledged features.
    pub closed spec fn spec_acked_features(self) -> u64 {
        self.state.acked_features
    }

    /// Pending interrupt bits.
    pub closed spec fn spec_interrupt_status(self) -> u64 {
        self.state.interrupt_status
    }

    /// Whether the device was activated.
    pub closed spec fn spec_activated(self) -> bool {
        self.device_status is Activated
    }

    /// How many queues the device drives.
    pub closed spec fn spec_queue_count(self) -> int {
        self.state.queues@.len() as int
    }

    /// Queue `i` of the device.
    pub closed spec fn spec_queue(self, i: int) -> VirtQueue {
        self.state.queues@[i]
    }

    /// Pending count of the interrupt notifier.
    pub closed spec fn spec_interrupt_evt_count(self) -> u64 {
        self.interrupt_evt.spec_count()
    }

    /// Pending count of the activation notifier.
    pub closed spec fn spec_activate_evt_count(self) -> u64 {
        self.activate_evt.spec_count()
    }

    /// Pending count of queue `i`'s kick notifier.
    pub closed spec fn spec_queue_evt_count(self, i: int) -> u64 {
        self.queue_events@[i].spec_count()
    }

    /// Well-formedness: the fixed queue set, every queue well-formed.
    pub closed spec fn wf(self) -> bool {
        &&& self.state.queues@.len() == NUM_QUEUES
        &&& forall|i: int| 0 <= i < NUM_QUEUES ==> (#[trigger] self.state.queues@[i]).wf()
    }
}


impl<B: VsockBackend> Vsock<B> {
    /// Builds a device around the given queues; notifiers start empty.
    pub fn with_queues(cid: u64, backend: B, queues: Vec<VirtQueue>) -> (r: Vsock<B>)
        requires
            forall|i: int| 0 <= i < queues@.len() ==> (#[trigger] queues@[i]).wf(),
        ensures
            r.spec_cid() == cid,
            r.spec_avail_features() == AVAIL_FEATURES,
            r.spec_acked_features() == 0,
            r.spec_interrupt_status() == 0,
            !r.spec_activated(),
            r.spec_queue_count() == queues@.len(),
            forall|i: int| 0 <= i < queues@.len() ==> #[trigger] r.spec_queue(i) == queues@[i],
            r.spec_interrupt_evt_count() == 0,
            r.spec_activate_evt_count() == 0,
            forall|i: int| 0 <= i < queues@.len() ==> #[trigger] r.spec_queue_evt_count(i) == 0,
            queues@.len() == NUM_QUEUES ==> r.wf(),
    {
        let n: usize = queues.len();
        let mut queue_events: Vec<EventNotifier> = Vec::new();
        let mut i: usize = 0;
        while i < n
            invariant
                0 <= i <= n,
                queue_events@.len() == i,
                forall|k: int| 0 <= k < i ==> #[trigger] queue_events@[k].spec_count() == 0,
            decreases n - i,
        {
            queue_events.push(EventNotifier::new());
            i = i + 1;
        }
        Vsock {
            queue_events,
            backend,
            interrupt_evt: EventNotifier::new(),
            activate_evt: EventNotifier::new(),
            device_status: DeviceStatus::Inactive,
            state: VsockState {
                cid,
                queues,
                avail_features: AVAIL_FEATURES,
                acked_features: 0,
                interrupt_status: 0,
                activated: false,
            },
        }
    }

    /// A new inactive device with its three fresh queues.
    pub fn new(cid: u64, backend: B) -> (r: Vsock<B>)
        ensures
            r.wf(),
            r.spec_cid() == cid,
            r.spec_avail_features() == AVAIL_FEATURES,
            r.spec_acked_features() == 0,
            r.spec_interrupt_status() == 0,
            !r.spec_activated(),
            r.spec_interrupt_evt_count() == 0,
            r.spec_activate_evt_count() == 0,
            forall|i: int|
                0 <= i < NUM_QUEUES ==> (#[trigger] r.spec_queue(i)).spec_max_size() == QUEUE_SIZE
                    && r.spec_queue(i).spec_avail().len() == 0 && r.spec_queue(i).spec_used().len()
                    == 0,
    {
        let mut queues: Vec<VirtQueue> = Vec::new();
        queues.push(VirtQueue::new(QUEUE_SIZE));
        queues.push(VirtQueue::new(QUEUE_SIZE));
        queues.push(VirtQueue::new(QUEUE_SIZE));
        Self::with_queues(cid, backend, queues)
    }

    /// The guest context id.
    pub fn cid(&self) -> (r: u64)
        ensures
            r == self.spec_cid(),
    {
        self.state.cid
    }

    /// The advertised feature bits.
    pub fn avail_features(&self) -> (r: u64)
        ensures
            r == self.spec_avail_features(),
    {
        self.state.avail_features
    }

    /// The acknowledged feature bits.
    pub fn acked_features(&self) -> (r: u64)
        ensures
            r == self.spec_acked_features(),
    {
        self.state.acked_features
    }

    /// Overwrites the acknowledged feature bits.
    pub fn set_acked_features(&mut self, acked_features: u64)
        ensures
            final(self).spec_acked_features() == acked_features,
            final(self).spec_cid() == old(self).spec_cid(),
            final(self).spec_avail_features() == old(self).spec_avail_features(),
            final(self).spec_interrupt_status() == old(self).spec_interrupt_status(),
            final(self).spec_activated() == old(self).spec_activated(),
            final(self).spec_queue_count() == old(self).spec_queue_count(),
            forall|i: int|
                0 <= i < old(self).spec_queue_count() ==> #[trigger] final(self).spec_queue(i)
                    == old(self).spec_queue(i),
            final(self).spec_interrupt_evt_count() == old(self).spec_interrupt_evt_count(),
            final(self).spec_activate_evt_count() == old(self).spec_activate_evt_count(),
            final(self).wf() == old(self).wf(),
    {
        self.state.acked_features = acked_features;
    }

    /// The virtio device type.
    pub fn device_type(&self) -> (r: u32)
        ensures
            r == VIRTIO_ID_VSOCK,
    {
        VIRTIO_ID_VSOCK
    }

    /// The interrupt-status word.
    pub fn interrupt_status(&self) -> (r: u64)
        ensures
            r == self.spec_interrupt_status(),
    {
        self.state.interrupt_status
    }

    /// Takes and clears the pending interrupt-notifier count.
    pub fn take_interrupt_event(&mut self) -> (r: u64)
        ensures
            r == old(self).spec_interrupt_evt_count(),
            final(self).spec_interrupt_evt_count() == 0,
            final(self).spec_cid() == old(self).spec_cid(),
            final(self).spec_avail_features() == old(self).spec_avail_features(),
            final(self).spec_acked_features() == old(self).spec_acked_features(),
            final(self).spec_interrupt_status() == old(self).spec_interrupt_status(),
            final(self).spec_activated() == old(self).spec_activated(),
            final(self).spec_queue_count() == old(self).spec_queue_count(),
            forall|i: int|
                0 <= i < old(self).spec_queue_count() ==> #[trigger] final(self).spec_queue(i)
                    == old(self).spec_queue(i),
            final(self).spec_activate_evt_count() == old(self).spec_activate_evt_count(),
            final(self).wf() == old(self).wf(),
    {
        self.interrupt_evt.read()
    }

    /// Takes and clears the pending activation-notifier count.
    pub fn take_activate_event(&mut self) -> (r: u64)
        ensures
            r == old(self).spec_activate_evt_count(),
            final(self).spec_activate_evt_count() == 0,
            final(self).spec_cid() == old(self).spec_cid(),
            final(self).spec_avail_features() == old(self).spec_avail_features(),
            final(self).spec_acked_features() == old(self).spec_acked_features(),
            final(self).spec_interrupt_status() == old(self).spec_interrupt_status(),
            final(self).spec_activated() == old(self).spec_activated(),
            final(self).spec_queue_count() == old(self).spec_queue_count(),
            forall|i: int|
                0 <= i < old(self).spec_queue_count() ==> #[trigger] final(self).spec_queue(i)
                    == old(self).spec_queue(i),
            final(self).spec_interrupt_evt_count() == old(self).spec_interrupt_evt_count(),
            final(self).wf() == old(self).wf(),
    {
        self.activate_evt.read()
    }

    /// The 32-bit window `page` of the advertised features: the low word,
    /// the high word, or zero for any other page.
    pub fn avail_features_by_page(&self, page: u32) -> (r: u32)
        ensures
            r == spec_features_page(self.spec_avail_features(), page),
    {
        if page == 0 {
            (self.state.avail_features & 0xFFFF_FFFFu64) as u32
        } else if page == 1 {
            let f: u64 = self.state.avail_features;
            proof {
                assert(f >> 32u64 <= 0xFFFF_FFFFu64) by (bit_vector);
            }
            (f >> 32u64) as u32
        } else {
            0
        }
    }

    /// Acknowledges the advertised bits of window `page`; bits the device
    /// does not advertise, and unknown pages, are ignored.  Bits are only
    /// ever added.
    pub fn ack_features_by_page(&mut self, page: u32, value: u32)
        ensures
            final(self).spec_acked_features() == old(self).spec_acked_features() | (
            spec_page_bits(page, value) & old(self).spec_avail_features()),
            final(self).spec_cid() == old(self).spec_cid(),
            final(self).spec_avail_features() == old(self).spec_avail_features(),
            final(self).spec_interrupt_status() == old(self).spec_interrupt_status(),
            final(self).spec_activated() == old(self).spec_activated(),
            final(self).spec_queue_count() == old(self).spec_queue_count(),
            forall|i: int|
                0 <= i < old(self).spec_queue_count() ==> #[trigger] final(self).spec_queue(i)
                    == old(self).spec_queue(i),
            final(self).spec_interrupt_evt_count() == old(self).spec_interrupt_evt_count(),
            final(self).spec_activate_evt_count() == old(self).spec_activate_evt_count(),
            final(self).wf() == old(self).wf(),
    {
        let v: u64 = if page == 0 {
            value as u64
        } else if page == 1 {
            (value as u64) << 32u64
        } else {
            0
        };
        let masked: u64 = v & self.state.avail_features;
        self.state.acked_features = self.state.acked_features | masked;
    }

    /// Serves a read of the 8-byte configuration space holding the
    /// little-endian context id: the whole id at offset 0, its halves at
    /// offsets 0 and 4; any other read leaves the buffer untouched.
    pub fn read_config(&self, offset: u64, data: &mut Vec<u8>)
        ensures
            final(data)@ == spec_config_read(
                self.spec_cid(),
                offset,
                old(data)@.len() as int,
                old(data)@,
            ),
    {
        if offset == 0 && data.len() == 8 {
            let b = u64_to_le_bytes(self.state.cid);
            *data = b;
        } else if offset == 0 && data.len() == 4 {
            let low: u32 = (self.state.cid & 0xFFFF_FFFFu64) as u32;
            let b = u32_to_le_bytes(low);
            *data = b;
        } else if offset == 4 && data.len() == 4 {
            let c: u64 = self.state.cid;
            proof {
                assert(c >> 32u64 <= 0xFFFF_FFFFu64) by (bit_vector);
            }
            let high: u32 = (c >> 32u64) as u32;
            let b = u32_to_le_bytes(high);
            *data = b;
        }
    }

    /// The configuration space is read-only: a write changes nothing.
    pub fn write_config(&mut self, offset: u64, data: &Vec<u8>)
        ensures
            *final(self) == *old(self),
    {
    }

    /// Raises the used-ring interrupt: the status bit is set before the
    /// notifier fires, so an observer woken by the notifier sees the bit.
    pub fn signal_used_queue(&mut self) -> (r: Result<(), DeviceError>)
        ensures
            r is Ok,
            final(self).spec_interrupt_status() == old(self).spec_interrupt_status()
                | VIRTIO_MMIO_INT_VRING as u64,
            final(self).spec_interrupt_evt_count() == if old(self).spec_interrupt_evt_count() + 1
                <= u64::MAX {
                (old(self).spec_interrupt_evt_count() + 1) as u64
            } else {
                u64::MAX
            },
            final(self).spec_cid() == old(self).spec_cid(),
            final(self).spec_acked_features() == old(self).spec_acked_features(),
            final(self).spec_avail_features() == old(self).spec_avail_features(),
            final(self).spec_activated() == old(self).spec_activated(),
            final(self).spec_queue_count() == old(self).spec_queue_count(),
            forall|i: int|
                0 <= i < old(self).spec_queue_count() ==> #[trigger] final(self).spec_queue(i)
                    == old(self).spec_queue(i),
    {
        self.state.interrupt_status = self.state.interrupt_status | VIRTIO_MMIO_INT_VRING as u64;
        self.interrupt_evt.write(1);
        Ok(())
    }

    /// Activates the device with the given guest memory.  Succeeds
    /// exactly when the device has its three queues; activation writes
    /// one token to the activation notifier.
    pub fn activate(&mut self, mem: GuestMemory) -> (r: Result<(), ActivateError>)
        ensures
            match r {
                Ok(()) => {
                    &&& old(self).spec_queue_count() == NUM_QUEUES
                    &&& final(self).spec_activated()
                    &&& final(self).spec_activate_evt_count() == if old(
                        self,
                    ).spec_activate_evt_count() + 1 <= u64::MAX {
                        (old(self).spec_activate_evt_count() + 1) as u64
                    } else {
                        u64::MAX
                    }
                },
                Err(e) => {
                    &&& e == ActivateError::BadActivate
                    &&& old(self).spec_queue_count() != NUM_QUEUES
                    &&& *final(self) == *old(self)
                },
            },
            final(self).spec_cid() == old(self).spec_cid(),
            final(self).spec_avail_features() == old(self).spec_avail_features(),
            final(self).spec_acked_features() == old(self).spec_acked_features(),
            final(self).spec_interrupt_status() == old(self).spec_interrupt_status(),
            final(self).spec_queue_count() == old(self).spec_queue_count(),
            forall|i: int|
                0 <= i < old(self).spec_queue_count() ==> #[trigger] final(self).spec_queue(i)
                    == old(self).spec_queue(i),
    {
        if self.state.queues.len() != NUM_QUEUES {
            return Err(ActivateError::BadActivate);
        }
        self.activate_evt.write(1);
        self.device_status = DeviceStatus::Activated(mem);
        Ok(())
    }

    /// Whether the device has been activated.
    pub fn is_activated(&self) -> (r: bool)
        ensures
            r == self.spec_activated(),
    {
        match self.device_status {
            DeviceStatus::Inactive => false,
            DeviceStatus::Activated(_) => true,
        }
    }

    /// Snapshots the serializable state; `activated` reflects the
    /// device's current status.
    pub fn save(&self) -> (r: VsockState)
        requires
            self.wf(),
        ensures
            r.cid == self.spec_cid(),
            r.avail_features == self.spec_avail_features(),
            r.acked_features == self.spec_acked_features(),
            r.interrupt_status == self.spec_interrupt_status(),
            r.activated == self.spec_activated(),
            r.queues@.len() == self.spec_queue_count(),
            forall|i: int|
                0 <= i < self.spec_queue_count() ==> {
                    &&& (#[trigger] r.queues@[i]).wf()
                    &&& r.queues@[i].spec_max_size() == self.spec_queue(i).spec_max_size()
                    &&& r.queues@[i].spec_avail() == self.spec_queue(i).spec_avail()
                    &&& r.queues@[i].spec_next() == self.spec_queue(i).spec_next()
                    &&& r.queues@[i].spec_used() == self.spec_queue(i).spec_used()
                },
    {
        let n: usize = self.state.queues.len();
        let mut queues: Vec<VirtQueue> = Vec::new();
        let mut i: usize = 0;
        while i < n
            invariant
                0 <= i <= n,
                self.wf(),
                n == self.spec_queue_count(),
                queues@.len() == i,
                forall|k: int|
                    0 <= k < i ==> {
                        &&& (#[trigger] queues@[k]).wf()
                        &&& queues@[k].spec_max_size() == self.spec_queue(k).spec_max_size()
                        &&& queues@[k].spec_avail() == self.spec_queue(k).spec_avail()
                        &&& queues@[k].spec_next() == self.spec_queue(k).spec_next()
                        &&& queues@[k].spec_used() == self.spec_queue(k).spec_used()
                    },
            decreases n - i,
        {
            let q = self.state.queues[i].duplicate();
            queues.push(q);
            i = i + 1;
        }
        VsockState {
            cid: self.state.cid,
            queues,
            avail_features: self.state.avail_features,
            acked_features: self.state.acked_features,
            interrupt_status: self.state.interrupt_status,
            activated: self.is_activated(),
        }
    }

    /// Rebuilds a device from a saved state: fresh notifiers and backend,
    /// the saved queues and features, activated with the given memory
    /// exactly when the state says so.
    pub fn restore(constructor_args: VsockConstructorArgs<B>, state: VsockState) -> (r: Vsock<B>)
        requires
            forall|i: int| 0 <= i < state.queues@.len() ==> (#[trigger] state.queues@[i]).wf(),
        ensures
            r.spec_cid() == state.cid,
            r.spec_avail_features() == state.avail_features,
            r.spec_acked_features() == state.acked_features,
            r.spec_interrupt_status() == state.interrupt_status,
            r.spec_activated() == state.activated,
            r.spec_queue_count() == state.queues@.len(),
            forall|i: int|
                0 <= i < state.queues@.len() ==> #[trigger] r.spec_queue(i) == state.queues@[i],
            r.spec_interrupt_evt_count() == 0,
            r.spec_activate_evt_count() == 0,
            forall|i: int|
                0 <= i < state.queues@.len() ==> #[trigger] r.spec_queue_evt_count(i) == 0,
            state.queues@.len() == NUM_QUEUES ==> r.wf(),
    {
        let activated = state.activated;
        let mut vsock = Self::with_queues(state.cid, constructor_args.backend, state.queues);
        let ghost q0 = vsock.state.queues@;
        let ghost qe0 = vsock.queue_events@;
        proof {
            assert forall|i: int| 0 <= i < state.queues@.len() implies q0[i] == state.queues@[i] by {
                assert(vsock.spec_queue(i) == state.queues@[i]);
            }
            assert forall|i: int|
                0 <= i < state.queues@.len() implies qe0[i].spec_count() == 0 by {
                assert(vsock.spec_queue_evt_count(i) == 0);
            }
        }
        vsock.state.avail_features = state.avail_features;
        vsock.state.acked_features = state.acked_features;
        vsock.state.interrupt_status = state.interrupt_status;
        vsock.state.activated = activated;
        if activated {
            vsock.device_status = DeviceStatus::Activated(constructor_args.mem);
        }
        proof {
            assert(vsock.state.queues@ == q0);
            assert(vsock.queue_events@ == qe0);
            assert forall|i: int|
                0 <= i < state.queues@.len() implies #[trigger] vsock.spec_queue_evt_count(i)
                == 0 by {
                assert(qe0[i].spec_count() == 0);
            }
            assert forall|i: int|
                0 <= i < state.queues@.len() implies #[trigger] vsock.spec_queue(i)
                == state.queues@[i] by {
                assert(vsock.spec_queue(i) == vsock.state.queues@[i]);
            }
        }
        vsock
    }
}

/// The 32-bit feature window `page` of a 64-bit feature word.
pub open spec fn spec_features_page(features: u64, page: u32) -> u32 {
    if page == 0 {
        (features & 0xFFFF_FFFF) as u32
    } else if page == 1 {
        (features >> 32) as u32
    } else {
        0u32
    }
}

/// The 64-bit feature bits a 32-bit acknowledgement of window `page`
/// stands for.
pub open spec fn spec_page_bits(page: u32, value: u32) -> u64 {
    if page == 0 {
        value as u64
    } else if page == 1 {
        (value as u64) << 32
    } else {
        0u64
    }
}

/// What a configuration read leaves in the caller's buffer.
pub open spec fn spec_config_read(cid: u64, offset: u64, len: int, buf: Seq<u8>) -> Seq<u8> {
    if offset == 0 && len == 8 {
        spec_u64_to_le_bytes(cid)
    } else if offset == 0 && len == 4 {
        spec_u32_to_le_bytes((cid & 0xFFFF_FFFF) as u32)
    } else if offset == 4 && len == 4 {
        spec_u32_to_le_bytes((cid >> 32) as u32)
    } else {
        buf
    }
}


/// How one pump run extends a queue: the available ring is untouched,
/// the used ring grows by the consumed heads' indexes in the order they
/// were popped, and the cursor advances by exactly the count of entries
/// added.
pub open spec fn pumped(oldq: VirtQueue, newq: VirtQueue) -> bool {
    &&& newq.wf()
    &&& newq.spec_max_size() == oldq.spec_max_size()
    &&& newq.spec_avail() == oldq.spec_avail()
    &&& oldq.spec_used().len() <= newq.spec_used().len()
    &&& newq.spec_used().take(oldq.spec_used().len() as int) == oldq.spec_used()
    &&& newq.spec_next() == oldq.spec_next() + newq.spec_used().len() - oldq.spec_used().len()
    &&& forall|j: int|
        0 <= j < newq.spec_used().len() - oldq.spec_used().len() ==> (
        #[trigger] newq.spec_used()[oldq.spec_used().len() + j]).index == oldq.spec_avail()[
            oldq.spec_next() + j
        ].index
}

/// The used-length discipline of one RX pump run: a chain too short for
/// a packet header is returned with length zero, and a filled chain
/// carries the header plus what the backend put in, never more than the
/// chain holds.
pub open spec fn rx_used_lens_ok(oldq: VirtQueue, newq: VirtQueue) -> bool {
    forall|j: int|
        0 <= j < newq.spec_used().len() - oldq.spec_used().len() ==> {
            let head = oldq.spec_avail()[oldq.spec_next() + j];
            let e = #[trigger] newq.spec_used()[oldq.spec_used().len() + j];
            &&& (head.len < VSOCK_PKT_HDR_SIZE ==> e.len == 0)
            &&& (head.len >= VSOCK_PKT_HDR_SIZE ==> VSOCK_PKT_HDR_SIZE <= e.len <= head.len)
        }
}

/// The used-length discipline of one TX pump run: every returned chain,
/// sent or unparsable, carries length zero.
pub open spec fn tx_used_lens_zero(oldq: VirtQueue, newq: VirtQueue) -> bool {
    forall|j: int|
        0 <= j < newq.spec_used().len() - oldq.spec_used().len() ==> (
        #[trigger] newq.spec_used()[oldq.spec_used().len() + j]).len == 0
}

/// Where a pump's cursor may rest: only at ring exhaustion, or at a
/// chain big enough to parse that was left for the backend.
pub open spec fn stopped_at_parseable(q: VirtQueue) -> bool {
    q.spec_next() < q.spec_avail().len() ==> q.spec_avail()[q.spec_next() as int].len
        >= VSOCK_PKT_HDR_SIZE
}

impl<B: VsockBackend> Vsock<B> {
    /// Walks the driver-provided RX buffers, asking the backend to fill
    /// each: a filled buffer is returned used with its byte count, an
    /// unparsable one used with length zero, and on backend starvation
    /// the buffer is left for the next run.  Returns whether any buffer
    /// was returned; buffers are used in the order they were popped.
    pub fn process_rx(&mut self) -> (r: bool)
        requires
            old(self).wf(),
            old(self).spec_activated(),
        ensures
            final(self).wf(),
            final(self).spec_cid() == old(self).spec_cid(),
            final(self).spec_avail_features() == old(self).spec_avail_features(),
            final(self).spec_acked_features() == old(self).spec_acked_features(),
            final(self).spec_interrupt_status() == old(self).spec_interrupt_status(),
            final(self).spec_activated() == old(self).spec_activated(),
            final(self).spec_interrupt_evt_count() == old(self).spec_interrupt_evt_count(),
            final(self).spec_activate_evt_count() == old(self).spec_activate_evt_count(),
            final(self).spec_queue_count() == old(self).spec_queue_count(),
            final(self).spec_queue(TXQ_INDEX as int) == old(self).spec_queue(TXQ_INDEX as int),
            final(self).spec_queue(EVQ_INDEX as int) == old(self).spec_queue(EVQ_INDEX as int),
            pumped(
                old(self).spec_queue(RXQ_INDEX as int),
                final(self).spec_queue(RXQ_INDEX as int),
            ),
            rx_used_lens_ok(
                old(self).spec_queue(RXQ_INDEX as int),
                final(self).spec_queue(RXQ_INDEX as int),
            ),
            stopped_at_parseable(final(self).spec_queue(RXQ_INDEX as int)),
            r == (final(self).spec_queue(RXQ_INDEX as int).spec_used().len() > old(
                self,
            ).spec_queue(RXQ_INDEX as int).spec_used().len()),
    {
        let ghost before = self.state.queues@;
        let mut queue = self.state.queues.remove(RXQ_INDEX);
        let ghost q0 = queue;
        proof {
            assert(old(self).spec_queue(RXQ_INDEX as int).wf());
            assert(q0.wf());
            assert(q0.spec_used().take(q0.spec_used().len() as int) =~= q0.spec_used());
            assert(pumped(q0, queue));
        }
        let mut have_used: bool = false;
        loop
            invariant
                q0.wf(),
                queue.wf(),
                pumped(q0, queue),
                rx_used_lens_ok(q0, queue),
                have_used == (queue.spec_used().len() > q0.spec_used().len()),
                self.state.queues@ == before.remove(RXQ_INDEX as int),
                self.state.cid == old(self).state.cid,
                self.state.avail_features == old(self).state.avail_features,
                self.state.acked_features == old(self).state.acked_features,
                self.state.interrupt_status == old(self).state.interrupt_status,
                self.state.activated == old(self).state.activated,
                self.device_status == old(self).device_status,
                self.interrupt_evt == old(self).interrupt_evt,
                self.activate_evt == old(self).activate_evt,
                self.queue_events == old(self).queue_events,
            ensures
                queue.wf(),
                pumped(q0, queue),
                rx_used_lens_ok(q0, queue),
                stopped_at_parseable(queue),
                have_used == (queue.spec_used().len() > q0.spec_used().len()),
                self.state.queues@ == before.remove(RXQ_INDEX as int),
                self.state.cid == old(self).state.cid,
                self.state.avail_features == old(self).state.avail_features,
                self.state.acked_features == old(self).state.acked_features,
                self.state.interrupt_status == old(self).state.interrupt_status,
                self.state.activated == old(self).state.activated,
                self.device_status == old(self).device_status,
                self.interrupt_evt == old(self).interrupt_evt,
                self.activate_evt == old(self).activate_evt,
                self.queue_events == old(self).queue_events,
            decreases queue.spec_avail().len() - queue.spec_next(),
        {
            let ghost used_before = queue.spec_used();
            let popped = queue.pop();
            if popped.is_none() {
                break ;
            }
            let head: DescriptorHead = popped.unwrap();
            proof {
                assert(queue.spec_next() > 0);
            }
            match VsockPacket::from_rx_virtq_head(&head) {
                Ok(mut pkt) => {
                    match self.backend.recv_pkt(&mut pkt) {
                        Ok(()) => {
                            let used_len: u32 = pkt.hdr_len() + pkt.len();
                            have_used = true;
                            queue.add_used(head.index, used_len);
                            proof {
                                assert(queue.spec_used().take(q0.spec_used().len() as int)
                                    =~= q0.spec_used());
                            }
                        },
                        Err(_) => {
                            proof {
                                assert(queue.spec_next() > 0);
                            }
                            queue.undo_pop();
                            break ;
                        },
                    }
                },
                Err(_) => {
                    have_used = true;
                    queue.add_used(head.index, 0);
                    proof {
                        assert(queue.spec_used().take(q0.spec_used().len() as int)
                            =~= q0.spec_used());
                    }
                },
            }
        }
        self.state.queues.insert(RXQ_INDEX, queue);
        proof {
            assert(self.state.queues@ =~= before.update(RXQ_INDEX as int, queue));
            assert(forall|i: int|
                0 <= i < before.len() && i != RXQ_INDEX ==> self.state.queues@[i] == before[i]);
        }
        have_used
    }

    /// Walks the driver-provided TX buffers, handing each to the backend:
    /// a sent or unparsable buffer is returned used with length zero, and
    /// on backpressure the buffer is left for the next run.  Returns
    /// whether any buffer was returned; buffers are used in the order
    /// they were popped.
    pub fn process_tx(&mut self) -> (r: bool)
        requires
            old(self).wf(),
            old(self).spec_activated(),
        ensures
            final(self).wf(),
            final(self).spec_cid() == old(self).spec_cid(),
            final(self).spec_avail_features() == old(self).spec_avail_features(),
            final(self).spec_acked_features() == old(self).spec_acked_features(),
            final(self).spec_interrupt_status() == old(self).spec_interrupt_status(),
            final(self).spec_activated() == old(self).spec_activated(),
            final(self).spec_interrupt_evt_count() == old(self).spec_interrupt_evt_count(),
            final(self).spec_activate_evt_count() == old(self).spec_activate_evt_count(),
            final(self).spec_queue_count() == old(self).spec_queue_count(),
            final(self).spec_queue(RXQ_INDEX as int) == old(self).spec_queue(RXQ_INDEX as int),
            final(self).spec_queue(EVQ_INDEX as int) == old(self).spec_queue(EVQ_INDEX as int),
            pumped(
                old(self).spec_queue(TXQ_INDEX as int),
                final(self).spec_queue(TXQ_INDEX as int),
            ),
            tx_used_lens_zero(
                old(self).spec_queue(TXQ_INDEX as int),
                final(self).spec_queue(TXQ_INDEX as int),
            ),
            stopped_at_parseable(final(self).spec_queue(TXQ_INDEX as int)),
            r == (final(self).spec_queue(TXQ_INDEX as int).spec_used().len() > old(
                self,
            ).spec_queue(TXQ_INDEX as int).spec_used().len()),
    {
        let ghost before = self.state.queues@;
        let mut queue = self.state.queues.remove(TXQ_INDEX);
        let ghost q0 = queue;
        proof {
            assert(old(self).spec_queue(TXQ_INDEX as int).wf());
            assert(q0.wf());
            assert(q0.spec_used().take(q0.spec_used().len() as int) =~= q0.spec_used());
            assert(pumped(q0, queue));
        }
        let mut have_used: bool = false;
        loop
            invariant
                q0.wf(),
                queue.wf(),
                pumped(q0, queue),
                tx_used_lens_zero(q0, queue),
                have_used == (queue.spec_used().len() > q0.spec_used().len()),
                self.state.queues@ == before.remove(TXQ_INDEX as int),
                self.state.cid == old(self).state.cid,
                self.state.avail_features == old(self).state.avail_features,
                self.state.acked_features == old(self).state.acked_features,
                self.state.interrupt_status == old(self).state.interrupt_status,
                self.state.activated == old(self).state.activated,
                self.device_status == old(self).device_status,
                self.interrupt_evt == old(self).interrupt_evt,
                self.activate_evt == old(self).activate_evt,
                self.queue_events == old(self).queue_events,
            ensures
                queue.wf(),
                pumped(q0, queue),
                tx_used_lens_zero(q0, queue),
                stopped_at_parseable(queue),
                have_used == (queue.spec_used().len() > q0.spec_used().len()),
                self.state.queues@ == before.remove(TXQ_INDEX as int),
                self.state.cid == old(self).state.cid,
                self.state.avail_features == old(self).state.avail_features,
                self.state.acked_features == old(self).state.acked_features,
                self.state.interrupt_status == old(self).state.interrupt_status,
                self.state.activated == old(self).state.activated,
                self.device_status == old(self).device_status,
                self.interrupt_evt == old(self).interrupt_evt,
                self.activate_evt == old(self).activate_evt,
                self.queue_events == old(self).queue_events,
            decreases queue.spec_avail().len() - queue.spec_next(),
        {
            let popped = queue.pop();
            if popped.is_none() {
                break ;
            }
            let head: DescriptorHead = popped.unwrap();
            proof {
                assert(queue.spec_next() > 0);
            }
            let pkt: VsockPacket = match VsockPacket::from_tx_virtq_head(&head) {
                Ok(p) => p,
                Err(_) => {
                    have_used = true;
                    queue.add_used(head.index, 0);
                    proof {
                        assert(queue.spec_used().take(q0.spec_used().len() as int)
                            =~= q0.spec_used());
                    }
                    continue ;
                },
            };
            match self.backend.send_pkt(&pkt) {
                Ok(()) => {
                    have_used = true;
                    queue.add_used(head.index, 0);
                    proof {
                        assert(queue.spec_used().take(q0.spec_used().len() as int)
                            =~= q0.spec_used());
                    }
                },
                Err(_) => {
                    proof {
                        assert(queue.spec_next() > 0);
                    }
                    queue.undo_pop();
                    break ;
                },
            }
        }
        self.state.queues.insert(TXQ_INDEX, queue);
        proof {
            assert(self.state.queues@ =~= before.update(TXQ_INDEX as int, queue));
            assert(forall|i: int|
                0 <= i < before.len() && i != TXQ_INDEX ==> self.state.queues@[i] == before[i]);
        }
        have_used
    }
}


impl Versionize for VsockState {
    open spec fn spec_name() -> Seq<char> {
        "VsockState"@
    }

    open spec fn spec_version() -> u16 {
        1u16
    }

    open spec fn spec_encode_ok(self, vm: VersionMap, app: u16) -> bool {
        true
    }

    open spec fn spec_encode(self, vm: VersionMap, app: u16) -> Seq<u8> {
        spec_u64_to_le_bytes(self.cid) + self.queues.spec_encode(vm, app) + spec_u64_to_le_bytes(
            self.avail_features,
        ) + spec_u64_to_le_bytes(self.acked_features) + spec_u64_to_le_bytes(self.interrupt_status)
            + self.activated.spec_encode(vm, app)
    }

    open spec fn spec_decodes(bytes: Seq<u8>, vm: VersionMap, app: u16, val: VsockState, n: nat) -> bool {
        &&& <u64 as Versionize>::spec_decodes(bytes, vm, app, val.cid, 8)
        &&& exists|k: nat|
            {
                &&& #[trigger] <Vec<VirtQueue> as Versionize>::spec_decodes(
                    bytes.skip(8),
                    vm,
                    app,
                    val.queues,
                    k,
                )
                &&& <u64 as Versionize>::spec_decodes(
                    bytes.skip(8int + k),
                    vm,
                    app,
                    val.avail_features,
                    8,
                )
                &&& <u64 as Versionize>::spec_decodes(
                    bytes.skip(16int + k),
                    vm,
                    app,
                    val.acked_features,
                    8,
                )
                &&& <u64 as Versionize>::spec_decodes(
                    bytes.skip(24int + k),
                    vm,
                    app,
                    val.interrupt_status,
                    8,
                )
                &&& <bool as Versionize>::spec_decodes(
                    bytes.skip(32int + k),
                    vm,
                    app,
                    val.activated,
                    1,
                )
                &&& n == 33 + k
            }
    }

    proof fn lemma_decode_bound(bytes: Seq<u8>, vm: VersionMap, app: u16, val: VsockState, n: nat) {
        let k = choose|k: nat|
            {
                &&& #[trigger] <Vec<VirtQueue> as Versionize>::spec_decodes(
                    bytes.skip(8),
                    vm,
                    app,
                    val.queues,
                    k,
                )
                &&& <u64 as Versionize>::spec_decodes(
                    bytes.skip(8int + k),
                    vm,
                    app,
                    val.avail_features,
                    8,
                )
                &&& <u64 as Versionize>::spec_decodes(
                    bytes.skip(16int + k),
                    vm,
                    app,
                    val.acked_features,
                    8,
                )
                &&& <u64 as Versionize>::spec_decodes(
                    bytes.skip(24int + k),
                    vm,
                    app,
                    val.interrupt_status,
                    8,
                )
                &&& <bool as Versionize>::spec_decodes(
                    bytes.skip(32int + k),
                    vm,
                    app,
                    val.activated,
                    1,
                )
                &&& n == 33 + k
            };
        <Vec<VirtQueue> as Versionize>::lemma_decode_bound(bytes.skip(8), vm, app, val.queues, k);
    }

    proof fn lemma_decode_len(
        bytes: Seq<u8>,
        vm: VersionMap,
        app: u16,
        v1: VsockState,
        n1: nat,
        v2: VsockState,
        n2: nat,
    ) {
        let k1 = choose|k: nat|
            {
                &&& #[trigger] <Vec<VirtQueue> as Versionize>::spec_decodes(
                    bytes.skip(8),
                    vm,
                    app,
                    v1.queues,
                    k,
                )
                &&& n1 == 33 + k
            };
        let k2 = choose|k: nat|
            {
                &&& #[trigger] <Vec<VirtQueue> as Versionize>::spec_decodes(
                    bytes.skip(8),
                    vm,
                    app,
                    v2.queues,
                    k,
                )
                &&& n2 == 33 + k
            };
        <Vec<VirtQueue> as Versionize>::lemma_decode_len(
            bytes.skip(8),
            vm,
            app,
            v1.queues,
            k1,
            v2.queues,
            k2,
        );
    }

    fn serialize(&self, out: &mut Vec<u8>, version_map: &VersionMap, target_app_version: u16) -> (r:
        Result<(), VersionizeError>) {
        let r1 = self.cid.serialize(out, version_map, target_app_version);
        if r1.is_err() {
            return r1;
        }
        let r2 = self.queues.serialize(out, version_map, target_app_version);
        if r2.is_err() {
            return r2;
        }
        let r3 = self.avail_features.serialize(out, version_map, target_app_version);
        if r3.is_err() {
            return r3;
        }
        let r4 = self.acked_features.serialize(out, version_map, target_app_version);
        if r4.is_err() {
            return r4;
        }
        let r5 = self.interrupt_status.serialize(out, version_map, target_app_version);
        if r5.is_err() {
            return r5;
        }
        let r6 = self.activated.serialize(out, version_map, target_app_version);
        if r6.is_err() {
            return r6;
        }
        proof {
            assert(out@ =~= old(out)@ + self.spec_encode(*version_map, target_app_version));
        }
        Ok(())
    }

    fn deserialize(reader: &mut Reader, version_map: &VersionMap, src_app_version: u16) -> (r:
        Result<VsockState, VersionizeError>) {
        let ghost rem0 = old(reader).remaining();
        let cid = match u64::deserialize(reader, version_map, src_app_version) {
            Ok(v) => v,
            Err(e) => {
                return Err(e);
            },
        };
        let ghost rem_q = reader.remaining();
        proof {
            assert(rem_q =~= rem0.skip(8));
        }
        let queues = match <Vec<VirtQueue> as Versionize>::deserialize(
            reader,
            version_map,
            src_app_version,
        ) {
            Ok(v) => v,
            Err(e) => {
                proof {
                    assert forall|val: VsockState, n: nat|
                        !VsockState::spec_decodes(rem0, *version_map, src_app_version, val, n) by {
                        if VsockState::spec_decodes(rem0, *version_map, src_app_version, val, n) {
                            let k2 = choose|k: nat|
                                {
                                    &&& #[trigger] <Vec<VirtQueue> as Versionize>::spec_decodes(
                                        rem0.skip(8),
                                        *version_map,
                                        src_app_version,
                                        val.queues,
                                        k,
                                    )
                                    &&& n == 33 + k
                                };
                            assert(!<Vec<VirtQueue> as Versionize>::spec_decodes(
                                rem_q,
                                *version_map,
                                src_app_version,
                                val.queues,
                                k2,
                            ));
                        }
                    }
                }
                return Err(e);
            },
        };
        let ghost k = (reader.pos - old(reader).pos - 8) as nat;
        let ghost rem_tail = reader.remaining();
        proof {
            vstd::seq_lib::lemma_seq_skip_of_skip(reader.bytes@, old(reader).pos as int + 8, k as int);
            assert(rem_tail =~= rem0.skip(8int + k));
        }
        let avail_features = match u64::deserialize(reader, version_map, src_app_version) {
            Ok(v) => v,
            Err(e) => {
                proof {
                    assert(<Vec<VirtQueue> as Versionize>::spec_decodes(
                        rem0.skip(8),
                        *version_map,
                        src_app_version,
                        queues,
                        k,
                    ));
                    vsock_state_tail_fails(
                        rem0,
                        *version_map,
                        src_app_version,
                        k,
                        queues,
                        rem_q,
                        0,
                    );
                }
                return Err(e);
            },
        };
        proof {
            assert(reader.remaining() =~= rem0.skip(16int + k));
        }
        let acked_features = match u64::deserialize(reader, version_map, src_app_version) {
            Ok(v) => v,
            Err(e) => {
                proof {
                    assert(<Vec<VirtQueue> as Versionize>::spec_decodes(
                        rem0.skip(8),
                        *version_map,
                        src_app_version,
                        queues,
                        k,
                    ));
                    vsock_state_tail_fails(
                        rem0,
                        *version_map,
                        src_app_version,
                        k,
                        queues,
                        rem_q,
                        1,
                    );
                }
                return Err(e);
            },
        };
        proof {
            assert(reader.remaining() =~= rem0.skip(24int + k));
        }
        let interrupt_status = match u64::deserialize(reader, version_map, src_app_version) {
            Ok(v) => v,
            Err(e) => {
                proof {
                    assert(<Vec<VirtQueue> as Versionize>::spec_decodes(
                        rem0.skip(8),
                        *version_map,
                        src_app_version,
                        queues,
                        k,
                    ));
                    vsock_state_tail_fails(
                        rem0,
                        *version_map,
                        src_app_version,
                        k,
                        queues,
                        rem_q,
                        2,
                    );
                }
                return Err(e);
            },
        };
        proof {
            assert(reader.remaining() =~= rem0.skip(32int + k));
        }
        let activated = match bool::deserialize(reader, version_map, src_app_version) {
            Ok(v) => v,
            Err(e) => {
                proof {
                    assert(<Vec<VirtQueue> as Versionize>::spec_decodes(
                        rem0.skip(8),
                        *version_map,
                        src_app_version,
                        queues,
                        k,
                    ));
                    vsock_state_tail_fails(
                        rem0,
                        *version_map,
                        src_app_version,
                        k,
                        queues,
                        rem_q,
                        3,
                    );
                }
                return Err(e);
            },
        };
        let st = VsockState {
            cid,
            queues,
            avail_features,
            acked_features,
            interrupt_status,
            activated,
        };
        proof {
            let nn = (reader.pos - old(reader).pos) as nat;
            assert(<Vec<VirtQueue> as Versionize>::spec_decodes(
                rem0.skip(8),
                *version_map,
                src_app_version,
                st.queues,
                k,
            ));
            assert(VsockState::spec_decodes(rem0, *version_map, src_app_version, st, nn));
        }
        Ok(st)
    }

    fn name() -> (r: String) {
        "VsockState".to_owned()
    }

    fn version() -> (r: u16) {
        1
    }
}

/// Why a state fails to decode when one of the words after the queues
/// cannot be read: any candidate's queue run ends where ours did, so its
/// word sits exactly where ours failed.  `which` picks the failing word.
proof fn vsock_state_tail_fails(
    rem0: Seq<u8>,
    vm: VersionMap,
    app: u16,
    k: nat,
    qs: Vec<VirtQueue>,
    rem_q: Seq<u8>,
    which: int,
)
    requires
        rem_q == rem0.skip(8),
        <Vec<VirtQueue> as Versionize>::spec_decodes(rem0.skip(8), vm, app, qs, k),
        which == 0 ==> forall|w: u64, m: nat|
            !#[trigger] <u64 as Versionize>::spec_decodes(rem0.skip(8int + k), vm, app, w, m),
        which == 1 ==> forall|w: u64, m: nat|
            !#[trigger] <u64 as Versionize>::spec_decodes(rem0.skip(16int + k), vm, app, w, m),
        which == 2 ==> forall|w: u64, m: nat|
            !#[trigger] <u64 as Versionize>::spec_decodes(rem0.skip(24int + k), vm, app, w, m),
        which == 3 ==> forall|w: bool, m: nat|
            !#[trigger] <bool as Versionize>::spec_decodes(rem0.skip(32int + k), vm, app, w, m),
        0 <= which <= 3,
    ensures
        forall|val: VsockState, n: nat|
            !VsockState::spec_decodes(rem0, vm, app, val, n),
{
    assert forall|val: VsockState, n: nat|
        !VsockState::spec_decodes(rem0, vm, app, val, n) by {
        if VsockState::spec_decodes(rem0, vm, app, val, n) {
            let k2 = choose|k2: nat|
                {
                    &&& #[trigger] <Vec<VirtQueue> as Versionize>::spec_decodes(
                        rem0.skip(8),
                        vm,
                        app,
                        val.queues,
                        k2,
                    )
                    &&& <u64 as Versionize>::spec_decodes(
                        rem0.skip(8int + k2),
                        vm,
                        app,
                        val.avail_features,
                        8,
                    )
                    &&& <u64 as Versionize>::spec_decodes(
                        rem0.skip(16int + k2),
                        vm,
                        app,
                        val.acked_features,
                        8,
                    )
                    &&& <u64 as Versionize>::spec_decodes(
                        rem0.skip(24int + k2),
                        vm,
                        app,
                        val.interrupt_status,
                        8,
                    )
                    &&& <bool as Versionize>::spec_decodes(
                        rem0.skip(32int + k2),
                        vm,
                        app,
                        val.activated,
                        1,
                    )
                    &&& n == 33 + k2
                };
            <Vec<VirtQueue> as Versionize>::lemma_decode_len(
                rem0.skip(8),
                vm,
                app,
                qs,
                k,
                val.queues,
                k2,
            );
            assert(k2 == k);
        }
    }
}

} // verus!
