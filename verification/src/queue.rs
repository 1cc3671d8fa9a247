//! Virtio queue model: the driver-offered descriptor chain heads, a
//! consumption cursor with one-step rewind, and the used ring.

use crate::codec::{Reader, Versionize, VersionizeError};
use crate::version_map::VersionMap;
use vstd::bytes::*;
use vstd::prelude::*;

verus! {

/// Head of a descriptor chain the driver made available.
#[derive(Clone, Copy, Debug, PartialEq, Eq, Structural)]
pub struct DescriptorHead {
    /// Index of the chain's first descriptor in the descriptor table.
    pub index: u16,
    /// Total byte length of the chain's buffers.
    pub len: u32,
}

/// One completed buffer returned to the driver.
#[derive(Clone, Copy, Debug, PartialEq, Eq, Structural)]
pub struct UsedElem {
    /// Index of the completed chain's first descriptor.
    pub index: u16,
    /// How many bytes the device wrote into the chain.
    pub len: u32,
}

/// One virtio ring: what the driver offered, how far the device has
/// consumed it, and what the device has returned.
pub struct VirtQueue {
    max_size: u16,
    avail: Vec<DescriptorHead>,
    next: usize,
    used: Vec<UsedElem>,
}

impl VirtQueue {
    /// The queue size negotiated at construction.
    pub closed spec fn spec_max_size(self) -> u16 {
        self.max_size
    }

    /// The queue size negotiated at construction.
    pub fn max_size(&self) -> (r: u16)
        ensures
            r == self.spec_max_size(),
    {
        self.max_size
    }

    /// The descriptor heads the driver has made available, in order.
    pub closed spec fn spec_avail(self) -> Seq<DescriptorHead> {
        self.avail@
    }

    /// How many available heads the device has consumed.
    pub closed spec fn spec_next(self) -> nat {
        self.next as nat
    }

    /// The used ring: completed buffers in completion order.
    pub closed spec fn spec_used(self) -> Seq<UsedElem> {
        self.used@
    }

    /// The available ring as the vector holding it.
    pub closed spec fn spec_avail_vec(self) -> Vec<DescriptorHead> {
        self.avail
    }

    /// The used ring as the vector holding it.
    pub closed spec fn spec_used_vec(self) -> Vec<UsedElem> {
        self.used
    }

    /// The cursor as the machine word holding it.
    pub closed spec fn spec_next_word(self) -> usize {
        self.next
    }

    /// The cursor never passes the end of the available ring.
    pub closed spec fn wf(self) -> bool {
        self.next <= self.avail@.len()
    }

    /// An empty queue of the given size.
    pub fn new(max_size: u16) -> (r: VirtQueue)
        ensures
            r.wf(),
            r.spec_max_size() == max_size,
            r.spec_avail().len() == 0,
            r.spec_next() == 0,
            r.spec_used().len() == 0,
    {
        VirtQueue { max_size, avail: Vec::new(), next: 0, used: Vec::new() }
    }

    /// Driver side: makes one more descriptor chain available.
    pub fn offer(&mut self, head: DescriptorHead)
        requires
            old(self).wf(),
        ensures
            final(self).wf(),
            final(self).spec_max_size() == old(self).spec_max_size(),
            final(self).spec_avail() == old(self).spec_avail().push(head),
            final(self).spec_next() == old(self).spec_next(),
            final(self).spec_used() == old(self).spec_used(),
    {
        self.avail.push(head);
    }

    /// Yields the next available head, or nothing when all are consumed.
    pub fn pop(&mut self) -> (r: Option<DescriptorHead>)
        requires
            old(self).wf(),
        ensures
            final(self).wf(),
            final(self).spec_max_size() == old(self).spec_max_size(),
            final(self).spec_avail() == old(self).spec_avail(),
            final(self).spec_used() == old(self).spec_used(),
            match r {
                Some(head) => {
                    &&& old(self).spec_next() < old(self).spec_avail().len()
                    &&& head == old(self).spec_avail()[old(self).spec_next() as int]
                    &&& final(self).spec_next() == old(self).spec_next() + 1
                },
                None => {
                    &&& old(self).spec_next() == old(self).spec_avail().len()
                    &&& final(self).spec_next() == old(self).spec_next()
                },
            },
    {
        if self.next < self.avail.len() {
            let head = self.avail[self.next];
            self.next = self.next + 1;
            Some(head)
        } else {
            None
        }
    }

    /// Rewinds the cursor one step, so the last popped head is yielded
    /// again by the next pop.
    pub fn undo_pop(&mut self)
        requires
            old(self).wf(),
            old(self).spec_next() > 0,
        ensures
            final(self).wf(),
            final(self).spec_max_size() == old(self).spec_max_size(),
            final(self).spec_avail() == old(self).spec_avail(),
            final(self).spec_used() == old(self).spec_used(),
            final(self).spec_next() == old(self).spec_next() - 1,
    {
        self.next = self.next - 1;
    }

    /// Returns one completed buffer to the driver.
    pub fn add_used(&mut self, index: u16, len: u32)
        requires
            old(self).wf(),
        ensures
            final(self).wf(),
            final(self).spec_max_size() == old(self).spec_max_size(),
            final(self).spec_avail() == old(self).spec_avail(),
            final(self).spec_next() == old(self).spec_next(),
            final(self).spec_used() == old(self).spec_used().push(UsedElem { index, len }),
    {
        self.used.push(UsedElem { index, len });
    }

    /// How many buffers have been returned to the driver.
    pub fn used_len(&self) -> (r: usize)
        ensures
            r == self.spec_used().len(),
    {
        self.used.len()
    }

    /// The `i`-th returned buffer, in completion order.
    pub fn used_at(&self, i: usize) -> (r: UsedElem)
        requires
            i < self.spec_used().len(),
        ensures
            r == self.spec_used()[i as int],
    {
        self.used[i]
    }

    /// Duplicates the queue state.
    pub fn duplicate(&self) -> (r: VirtQueue)
        requires
            self.wf(),
        ensures
            r.wf(),
            r.spec_max_size() == self.spec_max_size(),
            r.spec_avail() == self.spec_avail(),
            r.spec_next() == self.spec_next(),
            r.spec_used() == self.spec_used(),
    {
        let mut avail: Vec<DescriptorHead> = Vec::new();
        let mut i: usize = 0;
        while i < self.avail.len()
            invariant
                0 <= i <= self.avail@.len(),
                avail@.len() == i,
                forall|k: int| 0 <= k < i ==> avail@[k] == self.avail@[k],
            decreases self.avail@.len() - i,
        {
            avail.push(self.avail[i]);
            i = i + 1;
        }
        let mut used: Vec<UsedElem> = Vec::new();
        let mut j: usize = 0;
        while j < self.used.len()
            invariant
                0 <= j <= self.used@.len(),
                used@.len() == j,
                forall|k: int| 0 <= k < j ==> used@[k] == self.used@[k],
            decreases self.used@.len() - j,
        {
            used.push(self.used[j]);
            j = j + 1;
        }
        let r = VirtQueue { max_size: self.max_size, avail, next: self.next, used };
        proof {
            assert(r.avail@ =~= self.avail@);
            assert(r.used@ =~= self.used@);
        }
        r
    }
}


impl VirtQueue {
    /// Reassembles a queue from its parts, as the snapshot engine does.
    pub fn from_parts(
        max_size: u16,
        avail: Vec<DescriptorHead>,
        next: usize,
        used: Vec<UsedElem>,
    ) -> (r: VirtQueue)
        requires
            next <= avail@.len(),
        ensures
            r.wf(),
            r.spec_max_size() == max_size,
            r.spec_avail() == avail@,
            r.spec_next() == next,
            r.spec_used() == used@,
            r.spec_avail_vec() == avail,
            r.spec_used_vec() == used,
            r.spec_next_word() == next,
    {
        VirtQueue { max_size, avail, next, used }
    }
}

impl Versionize for DescriptorHead {
    open spec fn spec_name() -> Seq<char> {
        "DescriptorHead"@
    }

    open spec fn spec_version() -> u16 {
        1u16
    }

    open spec fn spec_encode_ok(self, vm: VersionMap, app: u16) -> bool {
        true
    }

    open spec fn spec_encode(self, vm: VersionMap, app: u16) -> Seq<u8> {
        spec_u16_to_le_bytes(self.index) + spec_u32_to_le_bytes(self.len)
    }

    open spec fn spec_decodes(
        bytes: Seq<u8>,
        vm: VersionMap,
        app: u16,
        val: DescriptorHead,
        n: nat,
    ) -> bool {
        &&& n == 6
        &&& <u16 as Versionize>::spec_decodes(bytes, vm, app, val.index, 2)
        &&& <u32 as Versionize>::spec_decodes(bytes.skip(2), vm, app, val.len, 4)
    }

    proof fn lemma_decode_bound(
        bytes: Seq<u8>,
        vm: VersionMap,
        app: u16,
        val: DescriptorHead,
        n: nat,
    ) {
    }

    proof fn lemma_decode_len(
        bytes: Seq<u8>,
        vm: VersionMap,
        app: u16,
        v1: DescriptorHead,
        n1: nat,
        v2: DescriptorHead,
        n2: nat,
    ) {
    }

    fn serialize(&self, out: &mut Vec<u8>, version_map: &VersionMap, target_app_version: u16) -> (r:
        Result<(), VersionizeError>) {
        let r1 = self.index.serialize(out, version_map, target_app_version);
        if r1.is_err() {
            return r1;
        }
        let r2 = self.len.serialize(out, version_map, target_app_version);
        if r2.is_err() {
            return r2;
        }
        proof {
            assert(out@ =~= old(out)@ + self.spec_encode(*version_map, target_app_version));
        }
        Ok(())
    }

    fn deserialize(reader: &mut Reader, version_map: &VersionMap, src_app_version: u16) -> (r:
        Result<DescriptorHead, VersionizeError>) {
        let ghost rem0 = old(reader).remaining();
        let index = match u16::deserialize(reader, version_map, src_app_version) {
            Ok(v) => v,
            Err(e) => {
                return Err(e);
            },
        };
        let ghost rem_mid = reader.remaining();
        let len = match u32::deserialize(reader, version_map, src_app_version) {
            Ok(v) => v,
            Err(e) => {
                proof {
                    assert forall|val: DescriptorHead, n: nat|
                        !DescriptorHead::spec_decodes(
                            rem0,
                            *version_map,
                            src_app_version,
                            val,
                            n,
                        ) by {
                        assert(rem_mid =~= rem0.skip(2));
                        assert(!<u32 as Versionize>::spec_decodes(
                            rem_mid,
                            *version_map,
                            src_app_version,
                            val.len,
                            4,
                        ));
                    }
                }
                return Err(e);
            },
        };
        proof {
            assert(rem_mid =~= rem0.skip(2));
        }
        Ok(DescriptorHead { index, len })
    }

    fn name() -> (r: String) {
        "DescriptorHead".to_owned()
    }

    fn version() -> (r: u16) {
        1
    }
}

impl Versionize for UsedElem {
    open spec fn spec_name() -> Seq<char> {
        "UsedElem"@
    }

    open spec fn spec_version() -> u16 {
        1u16
    }

    open spec fn spec_encode_ok(self, vm: VersionMap, app: u16) -> bool {
        true
    }

    open spec fn spec_encode(self, vm: VersionMap, app: u16) -> Seq<u8> {
        spec_u16_to_le_bytes(self.index) + spec_u32_to_le_bytes(self.len)
    }

    open spec fn spec_decodes(bytes: Seq<u8>, vm: VersionMap, app: u16, val: UsedElem, n: nat) -> bool {
        &&& n == 6
        &&& <u16 as Versionize>::spec_decodes(bytes, vm, app, val.index, 2)
        &&& <u32 as Versionize>::spec_decodes(bytes.skip(2), vm, app, val.len, 4)
    }

    proof fn lemma_decode_bound(bytes: Seq<u8>, vm: VersionMap, app: u16, val: UsedElem, n: nat) {
    }

    proof fn lemma_decode_len(
        bytes: Seq<u8>,
        vm: VersionMap,
        app: u16,
        v1: UsedElem,
        n1: nat,
        v2: UsedElem,
        n2: nat,
    ) {
    }

    fn serialize(&self, out: &mut Vec<u8>, version_map: &VersionMap, target_app_version: u16) -> (r:
        Result<(), VersionizeError>) {
        let r1 = self.index.serialize(out, version_map, target_app_version);
        if r1.is_err() {
            return r1;
        }
        let r2 = self.len.serialize(out, version_map, target_app_version);
        if r2.is_err() {
            return r2;
        }
        proof {
            assert(out@ =~= old(out)@ + self.spec_encode(*version_map, target_app_version));
        }
        Ok(())
    }

    fn deserialize(reader: &mut Reader, version_map: &VersionMap, src_app_version: u16) -> (r:
        Result<UsedElem, VersionizeError>) {
        let ghost rem0 = old(reader).remaining();
        let index = match u16::deserialize(reader, version_map, src_app_version) {
            Ok(v) => v,
            Err(e) => {
                return Err(e);
            },
        };
        let ghost rem_mid = reader.remaining();
        let len = match u32::deserialize(reader, version_map, src_app_version) {
            Ok(v) => v,
            Err(e) => {
                proof {
                    assert forall|val: UsedElem, n: nat|
                        !UsedElem::spec_decodes(rem0, *version_map, src_app_version, val, n) by {
                        assert(rem_mid =~= rem0.skip(2));
                        assert(!<u32 as Versionize>::spec_decodes(
                            rem_mid,
                            *version_map,
                            src_app_version,
                            val.len,
                            4,
                        ));
                    }
                }
                return Err(e);
            },
        };
        proof {
            assert(rem_mid =~= rem0.skip(2));
        }
        Ok(UsedElem { index, len })
    }

    fn name() -> (r: String) {
        "UsedElem".to_owned()
    }

    fn version() -> (r: u16) {
        1
    }
}


/// A decoded run of descriptor heads consumes six bytes per element.
proof fn lemma_desc_seq_span(
    bytes: Seq<u8>,
    vm: VersionMap,
    app: u16,
    vals: Seq<DescriptorHead>,
    m: nat,
)
    requires
        crate::primitives::seq_decodes(bytes, vm, app, vals, m),
    ensures
        m == 6 * vals.len(),
    decreases vals.len(),
{
    if vals.len() > 0 {
        let n1 = choose|n1: nat|
            {
                &&& #[trigger] DescriptorHead::spec_decodes(bytes, vm, app, vals[0], n1)
                &&& n1 <= m
                &&& crate::primitives::seq_decodes(
                    bytes.skip(n1 as int),
                    vm,
                    app,
                    vals.skip(1),
                    (m - n1) as nat,
                )
            };
        lemma_desc_seq_span(bytes.skip(6), vm, app, vals.skip(1), (m - 6) as nat);
    }
}

/// A decoded run of used entries consumes six bytes per element.
proof fn lemma_used_seq_span(bytes: Seq<u8>, vm: VersionMap, app: u16, vals: Seq<UsedElem>, m: nat)
    requires
        crate::primitives::seq_decodes(bytes, vm, app, vals, m),
    ensures
        m == 6 * vals.len(),
    decreases vals.len(),
{
    if vals.len() > 0 {
        let n1 = choose|n1: nat|
            {
                &&& #[trigger] UsedElem::spec_decodes(bytes, vm, app, vals[0], n1)
                &&& n1 <= m
                &&& crate::primitives::seq_decodes(
                    bytes.skip(n1 as int),
                    vm,
                    app,
                    vals.skip(1),
                    (m - n1) as nat,
                )
            };
        lemma_used_seq_span(bytes.skip(6), vm, app, vals.skip(1), (m - 6) as nat);
    }
}

/// A decoded vector of descriptor heads consumes the span its prefix
/// announces.
proof fn lemma_vec_desc_span(
    bytes: Seq<u8>,
    vm: VersionMap,
    app: u16,
    v: Vec<DescriptorHead>,
    n: nat,
)
    requires
        <Vec<DescriptorHead> as Versionize>::spec_decodes(bytes, vm, app, v, n),
    ensures
        n == 8 + 6 * spec_u64_from_le_bytes(bytes.take(8)),
        v@.len() == spec_u64_from_le_bytes(bytes.take(8)),
{
    let m = choose|m: nat|
        {
            &&& #[trigger] crate::primitives::seq_decodes(bytes.skip(8), vm, app, v@, m)
            &&& n == 8 + m
        };
    lemma_desc_seq_span(bytes.skip(8), vm, app, v@, m);
}

/// A decoded vector of used entries consumes the span its prefix
/// announces.
proof fn lemma_vec_used_span(bytes: Seq<u8>, vm: VersionMap, app: u16, v: Vec<UsedElem>, n: nat)
    requires
        <Vec<UsedElem> as Versionize>::spec_decodes(bytes, vm, app, v, n),
    ensures
        n == 8 + 6 * spec_u64_from_le_bytes(bytes.take(8)),
        v@.len() == spec_u64_from_le_bytes(bytes.take(8)),
{
    let m = choose|m: nat|
        {
            &&& #[trigger] crate::primitives::seq_decodes(bytes.skip(8), vm, app, v@, m)
            &&& n == 8 + m
        };
    lemma_used_seq_span(bytes.skip(8), vm, app, v@, m);
}

/// Where the cursor word of an encoded queue starts.
pub open spec fn vq_next_off(bytes: Seq<u8>) -> int {
    10 + 6 * spec_u64_from_le_bytes(bytes.skip(2).take(8))
}

/// Where the used ring of an encoded queue starts.
pub open spec fn vq_used_off(bytes: Seq<u8>) -> int {
    vq_next_off(bytes) + 8
}

/// How many bytes an encoded queue occupies.
pub open spec fn vq_end(bytes: Seq<u8>) -> int {
    vq_used_off(bytes) + 8 + 6 * spec_u64_from_le_bytes(bytes.skip(vq_used_off(bytes)).take(8))
}

impl Versionize for VirtQueue {
    open spec fn spec_name() -> Seq<char> {
        "VirtQueue"@
    }

    open spec fn spec_version() -> u16 {
        1u16
    }

    open spec fn spec_encode_ok(self, vm: VersionMap, app: u16) -> bool {
        true
    }

    open spec fn spec_encode(self, vm: VersionMap, app: u16) -> Seq<u8> {
        spec_u16_to_le_bytes(self.spec_max_size()) + spec_u64_to_le_bytes(
            self.spec_avail().len() as u64,
        ) + crate::primitives::seq_encode(self.spec_avail(), vm, app) + spec_u64_to_le_bytes(
            self.spec_next() as u64,
        ) + spec_u64_to_le_bytes(self.spec_used().len() as u64) + crate::primitives::seq_encode(
            self.spec_used(),
            vm,
            app,
        )
    }

    open spec fn spec_decodes(bytes: Seq<u8>, vm: VersionMap, app: u16, val: VirtQueue, n: nat) -> bool {
        let a_cnt = spec_u64_from_le_bytes(bytes.skip(2).take(8));
        let u_cnt = spec_u64_from_le_bytes(bytes.skip(vq_used_off(bytes)).take(8));
        &&& <u16 as Versionize>::spec_decodes(bytes, vm, app, val.spec_max_size(), 2)
        &&& <Vec<DescriptorHead> as Versionize>::spec_decodes(
            bytes.skip(2),
            vm,
            app,
            val.spec_avail_vec(),
            (8 + 6 * a_cnt) as nat,
        )
        &&& val.spec_avail() == val.spec_avail_vec()@
        &&& <usize as Versionize>::spec_decodes(
            bytes.skip(vq_next_off(bytes)),
            vm,
            app,
            val.spec_next_word(),
            8,
        )
        &&& val.spec_next() == val.spec_next_word() as nat
        &&& val.spec_next() <= a_cnt
        &&& <Vec<UsedElem> as Versionize>::spec_decodes(
            bytes.skip(vq_used_off(bytes)),
            vm,
            app,
            val.spec_used_vec(),
            (8 + 6 * u_cnt) as nat,
        )
        &&& val.spec_used() == val.spec_used_vec()@
        &&& val.wf()
        &&& n == vq_end(bytes)
    }

    proof fn lemma_decode_bound(bytes: Seq<u8>, vm: VersionMap, app: u16, val: VirtQueue, n: nat) {
        let u_cnt = spec_u64_from_le_bytes(bytes.skip(vq_used_off(bytes)).take(8));
        <Vec<DescriptorHead> as Versionize>::lemma_decode_bound(
            bytes.skip(2),
            vm,
            app,
            val.spec_avail_vec(),
            (8 + 6 * spec_u64_from_le_bytes(bytes.skip(2).take(8))) as nat,
        );
        <Vec<UsedElem> as Versionize>::lemma_decode_bound(
            bytes.skip(vq_used_off(bytes)),
            vm,
            app,
            val.spec_used_vec(),
            (8 + 6 * u_cnt) as nat,
        );
    }

    proof fn lemma_decode_len(
        bytes: Seq<u8>,
        vm: VersionMap,
        app: u16,
        v1: VirtQueue,
        n1: nat,
        v2: VirtQueue,
        n2: nat,
    ) {
    }

    fn serialize(&self, out: &mut Vec<u8>, version_map: &VersionMap, target_app_version: u16) -> (r:
        Result<(), VersionizeError>) {
        let r1 = self.max_size.serialize(out, version_map, target_app_version);
        if r1.is_err() {
            return r1;
        }
        let r2 = self.avail.serialize(out, version_map, target_app_version);
        if r2.is_err() {
            return r2;
        }
        let r3 = self.next.serialize(out, version_map, target_app_version);
        if r3.is_err() {
            return r3;
        }
        let r4 = self.used.serialize(out, version_map, target_app_version);
        if r4.is_err() {
            return r4;
        }
        proof {
            assert(out@ =~= old(out)@ + self.spec_encode(*version_map, target_app_version));
        }
        Ok(())
    }

    fn deserialize(reader: &mut Reader, version_map: &VersionMap, src_app_version: u16) -> (r:
        Result<VirtQueue, VersionizeError>) {
        let ghost rem0 = old(reader).remaining();
        let max_size = match u16::deserialize(reader, version_map, src_app_version) {
            Ok(v) => v,
            Err(e) => {
                return Err(e);
            },
        };
        let ghost rem_avail = reader.remaining();
        proof {
            assert(rem_avail =~= rem0.skip(2));
        }
        let avail = match <Vec<DescriptorHead> as Versionize>::deserialize(
            reader,
            version_map,
            src_app_version,
        ) {
            Ok(v) => v,
            Err(e) => {
                proof {
                    assert forall|val: VirtQueue, n: nat|
                        !VirtQueue::spec_decodes(rem0, *version_map, src_app_version, val, n) by {
                        if VirtQueue::spec_decodes(rem0, *version_map, src_app_version, val, n) {
                            assert(!<Vec<DescriptorHead> as Versionize>::spec_decodes(
                                rem_avail,
                                *version_map,
                                src_app_version,
                                val.spec_avail_vec(),
                                (8 + 6 * spec_u64_from_le_bytes(rem0.skip(2).take(8))) as nat,
                            ));
                        }
                    }
                }
                return Err(e);
            },
        };
        let ghost rem_next = reader.remaining();
        proof {
            lemma_vec_desc_span(
                rem0.skip(2),
                *version_map,
                src_app_version,
                avail,
                (reader.pos - old(reader).pos - 2) as nat,
            );
            assert(rem_next =~= rem0.skip(vq_next_off(rem0)));
        }
        let next = match usize::deserialize(reader, version_map, src_app_version) {
            Ok(v) => v,
            Err(e) => {
                proof {
                    assert forall|val: VirtQueue, n: nat|
                        !VirtQueue::spec_decodes(rem0, *version_map, src_app_version, val, n) by {
                        if VirtQueue::spec_decodes(rem0, *version_map, src_app_version, val, n) {
                            assert(!<usize as Versionize>::spec_decodes(
                                rem_next,
                                *version_map,
                                src_app_version,
                                val.spec_next_word(),
                                8,
                            ));
                        }
                    }
                }
                return Err(e);
            },
        };
        let ghost rem_used = reader.remaining();
        proof {
            assert(rem_used =~= rem0.skip(vq_used_off(rem0)));
        }
        if next > avail.len() {
            proof {
                assert forall|val: VirtQueue, n: nat|
                    !VirtQueue::spec_decodes(rem0, *version_map, src_app_version, val, n) by {
                    if VirtQueue::spec_decodes(rem0, *version_map, src_app_version, val, n) {
                        assert(val.spec_next() == spec_u64_from_le_bytes(
                            rem0.skip(vq_next_off(rem0)).take(8),
                        ));
                        assert(val.spec_avail_vec()@.len() == spec_u64_from_le_bytes(
                            rem0.skip(2).take(8),
                        ));
                    }
                }
            }
            return Err(VersionizeError::InvalidEncoding);
        }
        let used = match <Vec<UsedElem> as Versionize>::deserialize(
            reader,
            version_map,
            src_app_version,
        ) {
            Ok(v) => v,
            Err(e) => {
                proof {
                    assert forall|val: VirtQueue, n: nat|
                        !VirtQueue::spec_decodes(rem0, *version_map, src_app_version, val, n) by {
                        if VirtQueue::spec_decodes(rem0, *version_map, src_app_version, val, n) {
                            assert(!<Vec<UsedElem> as Versionize>::spec_decodes(
                                rem_used,
                                *version_map,
                                src_app_version,
                                val.spec_used_vec(),
                                (8 + 6 * spec_u64_from_le_bytes(
                                    rem0.skip(vq_used_off(rem0)).take(8),
                                )) as nat,
                            ));
                        }
                    }
                }
                return Err(e);
            },
        };
        proof {
            lemma_vec_used_span(
                rem0.skip(vq_used_off(rem0)),
                *version_map,
                src_app_version,
                used,
                (reader.pos - old(reader).pos - vq_used_off(rem0)) as nat,
            );
        }
        let q = VirtQueue::from_parts(max_size, avail, next, used);
        proof {
            let nn = (reader.pos - old(reader).pos) as nat;
            assert(q.spec_avail_vec() == avail);
            assert(q.spec_used_vec() == used);
            assert(q.spec_next_word() == next);
            assert(VirtQueue::spec_decodes(rem0, *version_map, src_app_version, q, nn));
        }
        Ok(q)
    }

    fn name() -> (r: String) {
        "VirtQueue".to_owned()
    }

    fn version() -> (r: u16) {
        1
    }
}

} // verus!
