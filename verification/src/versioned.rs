//! Versioned device-state types carried by the snapshot engine.
//!
//! These types exercise the serialization framework's features: fields
//! with version windows, defaults for fields absent on the wire, and
//! semantic hooks run around encoding and decoding.  Fixed-size array
//! fields are held as vectors whose length is part of the type's
//! well-formedness and checked on decode.

use crate::codec::{Reader, Versionize, VersionizeError};
use crate::version_map::VersionMap;
use vstd::bytes::*;
use vstd::prelude::*;

verus! {

/// A two-byte element of a fixed-size array field.
#[derive(Clone, Copy, Debug, PartialEq, Eq, Structural)]
pub struct ArrayElement {
    /// First coordinate.
    pub x: u8,
    /// Second coordinate.
    pub y: u8,
}

impl Versionize for ArrayElement {
    open spec fn spec_name() -> Seq<char> {
        "ArrayElement"@
    }

    open spec fn spec_version() -> u16 {
        1u16
    }

    open spec fn spec_encode_ok(self, vm: VersionMap, app: u16) -> bool {
        true
    }

    open spec fn spec_encode(self, vm: VersionMap, app: u16) -> Seq<u8> {
        seq![self.x, self.y]
    }

    open spec fn spec_decodes(
        bytes: Seq<u8>,
        vm: VersionMap,
        app: u16,
        val: ArrayElement,
        n: nat,
    ) -> bool {
        &&& n == 2
        &&& bytes.len() >= 2
        &&& val.x == bytes[0]
        &&& val.y == bytes[1]
    }

    proof fn lemma_decode_bound(
        bytes: Seq<u8>,
        vm: VersionMap,
        app: u16,
        val: ArrayElement,
        n: nat,
    ) {
    }

    proof fn lemma_decode_len(
        bytes: Seq<u8>,
        vm: VersionMap,
        app: u16,
        v1: ArrayElement,
        n1: nat,
        v2: ArrayElement,
        n2: nat,
    ) {
    }

    fn serialize(&self, out: &mut Vec<u8>, version_map: &VersionMap, target_app_version: u16) -> (r:
        Result<(), VersionizeError>) {
        out.push(self.x);
        out.push(self.y);
        proof {
            assert(out@ =~= old(out)@ + self.spec_encode(*version_map, target_app_version));
        }
        Ok(())
    }

    fn deserialize(reader: &mut Reader, version_map: &VersionMap, src_app_version: u16) -> (r:
        Result<ArrayElement, VersionizeError>) {
        match reader.take(2) {
            Ok(s) => {
                let x: u8 = s[0];
                let y: u8 = s[1];
                proof {
                    assert(s@[0] == old(reader).remaining()[0]);
                    assert(s@[1] == old(reader).remaining()[1]);
                }
                Ok(ArrayElement { x, y })
            },
            Err(e) => Err(e),
        }
    }

    fn name() -> (r: String) {
        "ArrayElement".to_owned()
    }

    fn version() -> (r: u16) {
        1
    }
}

/// Local-APIC register file; the register block is 32 bytes, held as a
/// vector of that length.
#[allow(non_camel_case_types)]
#[derive(Clone, Debug, PartialEq, Eq)]
pub struct kvm_lapic_state {
    /// The raw register bytes; always 32 of them.
    pub regs: Vec<i8>,
}

impl kvm_lapic_state {
    /// The register block has its fixed width.
    pub open spec fn wf(self) -> bool {
        self.regs@.len() == 32
    }
}

impl Versionize for kvm_lapic_state {
    open spec fn spec_name() -> Seq<char> {
        "kvm_lapic_state"@
    }

    open spec fn spec_version() -> u16 {
        1u16
    }

    open spec fn spec_encode_ok(self, vm: VersionMap, app: u16) -> bool {
        true
    }

    open spec fn spec_encode(self, vm: VersionMap, app: u16) -> Seq<u8> {
        self.regs.spec_encode(vm, app)
    }

    open spec fn spec_decodes(
        bytes: Seq<u8>,
        vm: VersionMap,
        app: u16,
        val: kvm_lapic_state,
        n: nat,
    ) -> bool {
        &&& <Vec<i8> as Versionize>::spec_decodes(bytes, vm, app, val.regs, n)
        &&& val.regs@.len() == 32
    }

    proof fn lemma_decode_bound(
        bytes: Seq<u8>,
        vm: VersionMap,
        app: u16,
        val: kvm_lapic_state,
        n: nat,
    ) {
        <Vec<i8> as Versionize>::lemma_decode_bound(bytes, vm, app, val.regs, n);
    }

    proof fn lemma_decode_len(
        bytes: Seq<u8>,
        vm: VersionMap,
        app: u16,
        v1: kvm_lapic_state,
        n1: nat,
        v2: kvm_lapic_state,
        n2: nat,
    ) {
        <Vec<i8> as Versionize>::lemma_decode_len(bytes, vm, app, v1.regs, n1, v2.regs, n2);
    }

    fn serialize(&self, out: &mut Vec<u8>, version_map: &VersionMap, target_app_version: u16) -> (r:
        Result<(), VersionizeError>) {
        self.regs.serialize(out, version_map, target_app_version)
    }

    fn deserialize(reader: &mut Reader, version_map: &VersionMap, src_app_version: u16) -> (r:
        Result<kvm_lapic_state, VersionizeError>) {
        let ghost rem0 = old(reader).remaining();
        let regs = match <Vec<i8> as Versionize>::deserialize(reader, version_map, src_app_version) {
            Ok(v) => v,
            Err(e) => {
                return Err(e);
            },
        };
        if regs.len() != 32 {
            proof {
                assert forall|val: kvm_lapic_state, n: nat|
                    !kvm_lapic_state::spec_decodes(
                        rem0,
                        *version_map,
                        src_app_version,
                        val,
                        n,
                    ) by {
                    if kvm_lapic_state::spec_decodes(rem0, *version_map, src_app_version, val, n) {
                        assert(val.regs@.len() == spec_u64_from_le_bytes(rem0.take(8)));
                        assert(regs@.len() == spec_u64_from_le_bytes(rem0.take(8)));
                    }
                }
            }
            return Err(VersionizeError::ArrayLength);
        }
        Ok(kvm_lapic_state { regs })
    }

    fn name() -> (r: String) {
        "kvm_lapic_state".to_owned()
    }

    fn version() -> (r: u16) {
        1
    }
}

/// Programmable-interval-timer configuration: a flag word and a 15-word
/// padding block, held as a vector of that length.
#[allow(non_camel_case_types)]
#[derive(Clone, Debug, PartialEq, Eq)]
pub struct kvm_pit_config {
    /// Configuration flags.
    pub flags: u32,
    /// Fixed-width padding; always 15 words.
    pub pad: Vec<u32>,
}

impl kvm_pit_config {
    /// The padding block has its fixed width.
    pub open spec fn wf(self) -> bool {
        self.pad@.len() == 15
    }
}

impl Versionize for kvm_pit_config {
    open spec fn spec_name() -> Seq<char> {
        "kvm_pit_config"@
    }

    open spec fn spec_version() -> u16 {
        1u16
    }

    open spec fn spec_encode_ok(self, vm: VersionMap, app: u16) -> bool {
        true
    }

    open spec fn spec_encode(self, vm: VersionMap, app: u16) -> Seq<u8> {
        spec_u32_to_le_bytes(self.flags) + self.pad.spec_encode(vm, app)
    }

    open spec fn spec_decodes(
        bytes: Seq<u8>,
        vm: VersionMap,
        app: u16,
        val: kvm_pit_config,
        n: nat,
    ) -> bool {
        &&& <u32 as Versionize>::spec_decodes(bytes, vm, app, val.flags, 4)
        &&& exists|k: nat|
            {
                &&& #[trigger] <Vec<u32> as Versionize>::spec_decodes(
                    bytes.skip(4),
                    vm,
                    app,
                    val.pad,
                    k,
                )
                &&& n == 4 + k
            }
        &&& val.pad@.len() == 15
    }

    proof fn lemma_decode_bound(
        bytes: Seq<u8>,
        vm: VersionMap,
        app: u16,
        val: kvm_pit_config,
        n: nat,
    ) {
        let k = choose|k: nat|
            {
                &&& #[trigger] <Vec<u32> as Versionize>::spec_decodes(
                    bytes.skip(4),
                    vm,
                    app,
                    val.pad,
                    k,
                )
                &&& n == 4 + k
            };
        <Vec<u32> as Versionize>::lemma_decode_bound(bytes.skip(4), vm, app, val.pad, k);
    }

    proof fn lemma_decode_len(
        bytes: Seq<u8>,
        vm: VersionMap,
        app: u16,
        v1: kvm_pit_config,
        n1: nat,
        v2: kvm_pit_config,
        n2: nat,
    ) {
        let k1 = choose|k: nat|
            {
                &&& #[trigger] <Vec<u32> as Versionize>::spec_decodes(
                    bytes.skip(4),
                    vm,
                    app,
                    v1.pad,
                    k,
                )
                &&& n1 == 4 + k
            };
        let k2 = choose|k: nat|
            {
                &&& #[trigger] <Vec<u32> as Versionize>::spec_decodes(
                    bytes.skip(4),
                    vm,
                    app,
                    v2.pad,
                    k,
                )
                &&& n2 == 4 + k
            };
        <Vec<u32> as Versionize>::lemma_decode_len(bytes.skip(4), vm, app, v1.pad, k1, v2.pad, k2);
    }

    fn serialize(&self, out: &mut Vec<u8>, version_map: &VersionMap, target_app_version: u16) -> (r:
        Result<(), VersionizeError>) {
        let res1 = self.flags.serialize(out, version_map, target_app_version);
        if res1.is_err() {
            return res1;
        }
        let res2 = self.pad.serialize(out, version_map, target_app_version);
        if res2.is_err() {
            return res2;
        }
        proof {
            assert(out@ =~= old(out)@ + self.spec_encode(*version_map, target_app_version));
        }
        Ok(())
    }

    fn deserialize(reader: &mut Reader, version_map: &VersionMap, src_app_version: u16) -> (r:
        Result<kvm_pit_config, VersionizeError>) {
        let ghost rem0 = old(reader).remaining();
        let flags = match u32::deserialize(reader, version_map, src_app_version) {
            Ok(v) => v,
            Err(e) => {
                return Err(e);
            },
        };
        let ghost rem_mid = reader.remaining();
        proof {
            assert(rem_mid =~= rem0.skip(4));
        }
        let pad = match <Vec<u32> as Versionize>::deserialize(reader, version_map, src_app_version) {
            Ok(v) => v,
            Err(e) => {
                proof {
                    assert forall|val: kvm_pit_config, n: nat|
                        !kvm_pit_config::spec_decodes(
                            rem0,
                            *version_map,
                            src_app_version,
                            val,
                            n,
                        ) by {
                        if kvm_pit_config::spec_decodes(rem0, *version_map, src_app_version, val, n) {
                            let k = choose|k: nat|
                                {
                                    &&& #[trigger] <Vec<u32> as Versionize>::spec_decodes(
                                        rem0.skip(4),
                                        *version_map,
                                        src_app_version,
                                        val.pad,
                                        k,
                                    )
                                    &&& n == 4 + k
                                };
                            assert(!<Vec<u32> as Versionize>::spec_decodes(
                                rem_mid,
                                *version_map,
                                src_app_version,
                                val.pad,
                                k,
                            ));
                        }
                    }
                }
                return Err(e);
            },
        };
        if pad.len() != 15 {
            proof {
                let ghost rem4 = rem0.skip(4);
                assert forall|val: kvm_pit_config, n: nat|
                    !kvm_pit_config::spec_decodes(
                        rem0,
                        *version_map,
                        src_app_version,
                        val,
                        n,
                    ) by {
                    if kvm_pit_config::spec_decodes(rem0, *version_map, src_app_version, val, n) {
                        assert(val.pad@.len() == spec_u64_from_le_bytes(rem4.take(8)));
                        assert(pad@.len() == spec_u64_from_le_bytes(rem4.take(8)));
                    }
                }
            }
            return Err(VersionizeError::ArrayLength);
        }
        let cfg = kvm_pit_config { flags, pad };
        proof {
            let k = (reader.pos - old(reader).pos - 4) as nat;
            assert(<Vec<u32> as Versionize>::spec_decodes(
                rem0.skip(4),
                *version_map,
                src_app_version,
                cfg.pad,
                k,
            ));
        }
        Ok(cfg)
    }

    fn name() -> (r: String) {
        "kvm_pit_config".to_owned()
    }

    fn version() -> (r: u16) {
        1
    }
}


/// A tri-state device flag: the second variant appeared in struct
/// version 2 and the third in version 3.  A variant absent at the
/// encoding version is replaced through its default hook.
#[derive(Clone, Copy, Debug, PartialEq, Eq, Structural)]
pub enum TestState {
    /// Always-present variant.
    One,
    /// Variant defined from struct version 2 on.
    Two,
    /// Variant defined from struct version 3 on.
    Three,
}

/// The wire discriminant of a variant.
pub open spec fn test_state_disc(s: TestState) -> u16 {
    match s {
        TestState::One => 1u16,
        TestState::Two => 2u16,
        TestState::Three => 3u16,
    }
}

/// The replacement encoded for `Two` at versions that lack it.
pub open spec fn spec_test_state_default_one(state: TestState, target_version: u16) -> TestState {
    TestState::Two
}

/// The replacement encoded for `Three` at versions that lack it.
pub open spec fn spec_test_state_default_two(state: TestState, target_version: u16) -> TestState {
    if target_version == 3 {
        TestState::Three
    } else if target_version == 2 {
        TestState::Two
    } else {
        TestState::One
    }
}

/// The variant actually put on the wire at struct version `v`.
pub open spec fn test_state_at(s: TestState, v: u16) -> TestState {
    match s {
        TestState::One => TestState::One,
        TestState::Two => if v >= 2 {
            TestState::Two
        } else {
            spec_test_state_default_one(s, v)
        },
        TestState::Three => if v >= 3 {
            TestState::Three
        } else {
            spec_test_state_default_two(s, v)
        },
    }
}

/// Default hook for `Two`: the variant written where `Two` is absent.
pub fn test_state_default_one(state: &TestState, target_version: u16) -> (r: TestState)
    ensures
        r == spec_test_state_default_one(*state, target_version),
{
    TestState::Two
}

/// Default hook for `Three`: the variant written where `Three` is absent.
pub fn test_state_default_two(state: &TestState, target_version: u16) -> (r: TestState)
    ensures
        r == spec_test_state_default_two(*state, target_version),
{
    if target_version == 3 {
        TestState::Three
    } else if target_version == 2 {
        TestState::Two
    } else {
        TestState::One
    }
}

impl Versionize for TestState {
    open spec fn spec_name() -> Seq<char> {
        "TestState"@
    }

    open spec fn spec_version() -> u16 {
        3u16
    }

    open spec fn spec_encode_ok(self, vm: VersionMap, app: u16) -> bool {
        true
    }

    open spec fn spec_encode(self, vm: VersionMap, app: u16) -> Seq<u8> {
        spec_u16_to_le_bytes(
            test_state_disc(test_state_at(self, vm.spec_type_version(app, Self::spec_name()))),
        )
    }

    open spec fn spec_decodes(bytes: Seq<u8>, vm: VersionMap, app: u16, val: TestState, n: nat) -> bool {
        let d = spec_u16_from_le_bytes(bytes.take(2));
        &&& n == 2
        &&& bytes.len() >= 2
        &&& ((d == 1 && val is One) || (d == 2 && val is Two) || (d == 3 && val is Three))
    }

    proof fn lemma_decode_bound(bytes: Seq<u8>, vm: VersionMap, app: u16, val: TestState, n: nat) {
    }

    proof fn lemma_decode_len(
        bytes: Seq<u8>,
        vm: VersionMap,
        app: u16,
        v1: TestState,
        n1: nat,
        v2: TestState,
        n2: nat,
    ) {
    }

    fn serialize(&self, out: &mut Vec<u8>, version_map: &VersionMap, target_app_version: u16) -> (r:
        Result<(), VersionizeError>) {
        let name = Self::name();
        let v: u16 = version_map.get_type_version(target_app_version, &name);
        let variant: TestState = match self {
            TestState::One => TestState::One,
            TestState::Two => {
                if v >= 2 {
                    TestState::Two
                } else {
                    test_state_default_one(self, v)
                }
            },
            TestState::Three => {
                if v >= 3 {
                    TestState::Three
                } else {
                    test_state_default_two(self, v)
                }
            },
        };
        let disc: u16 = match variant {
            TestState::One => 1,
            TestState::Two => 2,
            TestState::Three => 3,
        };
        let mut b = u16_to_le_bytes(disc);
        out.append(&mut b);
        Ok(())
    }

    fn deserialize(reader: &mut Reader, version_map: &VersionMap, src_app_version: u16) -> (r:
        Result<TestState, VersionizeError>) {
        match reader.take(2) {
            Ok(s) => {
                proof {
                    assert(s@ =~= old(reader).remaining().take(2));
                }
                let d: u16 = u16_from_le_bytes(s);
                if d == 1 {
                    Ok(TestState::One)
                } else if d == 2 {
                    Ok(TestState::Two)
                } else if d == 3 {
                    Ok(TestState::Three)
                } else {
                    Err(VersionizeError::InvalidEncoding)
                }
            },
            Err(e) => Err(e),
        }
    }

    fn name() -> (r: String) {
        "TestState".to_owned()
    }

    fn version() -> (r: u16) {
        3
    }
}

/// First cut of the demonstration configuration: one field.
#[derive(Clone, Copy, Debug, PartialEq, Eq, Structural)]
pub struct DemoConfigV1 {
    /// The only field of version 1.
    pub field1: u32,
}

impl Versionize for DemoConfigV1 {
    open spec fn spec_name() -> Seq<char> {
        "DemoConfigV1"@
    }

    open spec fn spec_version() -> u16 {
        1u16
    }

    open spec fn spec_encode_ok(self, vm: VersionMap, app: u16) -> bool {
        vm.spec_type_version(app, Self::spec_name()) == 1
    }

    open spec fn spec_encode(self, vm: VersionMap, app: u16) -> Seq<u8> {
        spec_u32_to_le_bytes(self.field1)
    }

    open spec fn spec_decodes(
        bytes: Seq<u8>,
        vm: VersionMap,
        app: u16,
        val: DemoConfigV1,
        n: nat,
    ) -> bool {
        &&& vm.spec_type_version(app, Self::spec_name()) == 1
        &&& n == 4
        &&& <u32 as Versionize>::spec_decodes(bytes, vm, app, val.field1, 4)
    }

    proof fn lemma_decode_bound(
        bytes: Seq<u8>,
        vm: VersionMap,
        app: u16,
        val: DemoConfigV1,
        n: nat,
    ) {
    }

    proof fn lemma_decode_len(
        bytes: Seq<u8>,
        vm: VersionMap,
        app: u16,
        v1: DemoConfigV1,
        n1: nat,
        v2: DemoConfigV1,
        n2: nat,
    ) {
    }

    fn serialize(&self, out: &mut Vec<u8>, version_map: &VersionMap, target_app_version: u16) -> (r:
        Result<(), VersionizeError>) {
        let name = Self::name();
        let v: u16 = version_map.get_type_version(target_app_version, &name);
        if v != 1 {
            return Err(VersionizeError::UnknownVersion);
        }
        self.field1.serialize(out, version_map, target_app_version)
    }

    fn deserialize(reader: &mut Reader, version_map: &VersionMap, src_app_version: u16) -> (r:
        Result<DemoConfigV1, VersionizeError>) {
        let name = Self::name();
        let v: u16 = version_map.get_type_version(src_app_version, &name);
        if v != 1 {
            return Err(VersionizeError::UnknownVersion);
        }
        match u32::deserialize(reader, version_map, src_app_version) {
            Ok(field1) => Ok(DemoConfigV1 { field1 }),
            Err(e) => Err(e),
        }
    }

    fn name() -> (r: String) {
        "DemoConfigV1".to_owned()
    }

    fn version() -> (r: u16) {
        1
    }
}

/// Demonstration configuration with four struct versions: `field2`
/// appeared in version 2 with default 20, `field3` in version 3 with
/// default text, `field4` in version 4 with a default list.
#[derive(Clone, Debug, PartialEq, Eq)]
pub struct DemoConfig {
    /// Present since version 1.
    pub field1: u32,
    /// Present since version 2; decodes to 20 from older versions.
    pub field2: u64,
    /// Present since version 3; decodes to its default text from older
    /// versions.
    pub field3: String,
    /// Present since version 4; decodes to its default list from older
    /// versions.
    pub field4: Vec<u64>,
}

impl Versionize for DemoConfig {
    open spec fn spec_name() -> Seq<char> {
        "DemoConfig"@
    }

    open spec fn spec_version() -> u16 {
        4u16
    }

    open spec fn spec_encode_ok(self, vm: VersionMap, app: u16) -> bool {
        1 <= vm.spec_type_version(app, Self::spec_name()) <= 4
    }

    open spec fn spec_encode(self, vm: VersionMap, app: u16) -> Seq<u8> {
        let v = vm.spec_type_version(app, Self::spec_name());
        spec_u32_to_le_bytes(self.field1) + (if v >= 2 {
            spec_u64_to_le_bytes(self.field2)
        } else {
            Seq::<u8>::empty()
        }) + (if v >= 3 {
            self.field3.spec_encode(vm, app)
        } else {
            Seq::<u8>::empty()
        }) + (if v >= 4 {
            self.field4.spec_encode(vm, app)
        } else {
            Seq::<u8>::empty()
        })
    }

    open spec fn spec_decodes(bytes: Seq<u8>, vm: VersionMap, app: u16, val: DemoConfig, n: nat) -> bool {
        let v = vm.spec_type_version(app, Self::spec_name());
        &&& 1 <= v <= 4
        &&& <u32 as Versionize>::spec_decodes(bytes, vm, app, val.field1, 4)
        &&& (v >= 2 ==> <u64 as Versionize>::spec_decodes(bytes.skip(4), vm, app, val.field2, 8))
        &&& (v < 2 ==> val.field2 == 20u64)
        &&& (v < 3 ==> val.field3@ == "default"@)
        &&& (v < 4 ==> val.field4@ == seq![1u64, 2u64, 3u64, 4u64])
        &&& (v == 1 ==> n == 4)
        &&& (v == 2 ==> n == 12)
        &&& (v == 3 ==> exists|k: nat|
            {
                &&& #[trigger] <String as Versionize>::spec_decodes(
                    bytes.skip(12),
                    vm,
                    app,
                    val.field3,
                    k,
                )
                &&& n == 12 + k
            })
        &&& (v >= 4 ==> exists|k: nat, m: nat|
            {
                &&& #[trigger] <String as Versionize>::spec_decodes(
                    bytes.skip(12),
                    vm,
                    app,
                    val.field3,
                    k,
                )
                &&& #[trigger] <Vec<u64> as Versionize>::spec_decodes(
                    bytes.skip(12int + k),
                    vm,
                    app,
                    val.field4,
                    m,
                )
                &&& n == 12 + k + m
            })
    }

    proof fn lemma_decode_bound(bytes: Seq<u8>, vm: VersionMap, app: u16, val: DemoConfig, n: nat) {
        let v = vm.spec_type_version(app, Self::spec_name());
        if v == 3 {
            let k = choose|k: nat|
                {
                    &&& #[trigger] <String as Versionize>::spec_decodes(
                        bytes.skip(12),
                        vm,
                        app,
                        val.field3,
                        k,
                    )
                    &&& n == 12 + k
                };
            <String as Versionize>::lemma_decode_bound(bytes.skip(12), vm, app, val.field3, k);
        }
        if v >= 4 {
            let (k, m): (nat, nat) = choose|k: nat, m: nat|
                {
                    &&& #[trigger] <String as Versionize>::spec_decodes(
                        bytes.skip(12),
                        vm,
                        app,
                        val.field3,
                        k,
                    )
                    &&& #[trigger] <Vec<u64> as Versionize>::spec_decodes(
                        bytes.skip(12int + k),
                        vm,
                        app,
                        val.field4,
                        m,
                    )
                    &&& n == 12 + k + m
                };
            <String as Versionize>::lemma_decode_bound(bytes.skip(12), vm, app, val.field3, k);
            <Vec<u64> as Versionize>::lemma_decode_bound(bytes.skip(12int + k), vm, app, val.field4, m);
        }
    }

    proof fn lemma_decode_len(
        bytes: Seq<u8>,
        vm: VersionMap,
        app: u16,
        v1: DemoConfig,
        n1: nat,
        v2: DemoConfig,
        n2: nat,
    ) {
        let v = vm.spec_type_version(app, Self::spec_name());
        if v == 3 {
            let k1 = choose|k: nat|
                {
                    &&& #[trigger] <String as Versionize>::spec_decodes(
                        bytes.skip(12),
                        vm,
                        app,
                        v1.field3,
                        k,
                    )
                    &&& n1 == 12 + k
                };
            let k2 = choose|k: nat|
                {
                    &&& #[trigger] <String as Versionize>::spec_decodes(
                        bytes.skip(12),
                        vm,
                        app,
                        v2.field3,
                        k,
                    )
                    &&& n2 == 12 + k
                };
            <String as Versionize>::lemma_decode_len(
                bytes.skip(12),
                vm,
                app,
                v1.field3,
                k1,
                v2.field3,
                k2,
            );
        }
        if v >= 4 {
            let (k1, m1): (nat, nat) = choose|k: nat, m: nat|
                {
                    &&& #[trigger] <String as Versionize>::spec_decodes(
                        bytes.skip(12),
                        vm,
                        app,
                        v1.field3,
                        k,
                    )
                    &&& #[trigger] <Vec<u64> as Versionize>::spec_decodes(
                        bytes.skip(12int + k),
                        vm,
                        app,
                        v1.field4,
                        m,
                    )
                    &&& n1 == 12 + k + m
                };
            let (k2, m2): (nat, nat) = choose|k: nat, m: nat|
                {
                    &&& #[trigger] <String as Versionize>::spec_decodes(
                        bytes.skip(12),
                        vm,
                        app,
                        v2.field3,
                        k,
                    )
                    &&& #[trigger] <Vec<u64> as Versionize>::spec_decodes(
                        bytes.skip(12int + k),
                        vm,
                        app,
                        v2.field4,
                        m,
                    )
                    &&& n2 == 12 + k + m
                };
            <String as Versionize>::lemma_decode_len(
                bytes.skip(12),
                vm,
                app,
                v1.field3,
                k1,
                v2.field3,
                k2,
            );
            <Vec<u64> as Versionize>::lemma_decode_len(
                bytes.skip(12int + k1),
                vm,
                app,
                v1.field4,
                m1,
                v2.field4,
                m2,
            );
        }
    }

    fn serialize(&self, out: &mut Vec<u8>, version_map: &VersionMap, target_app_version: u16) -> (r:
        Result<(), VersionizeError>) {
        let name = Self::name();
        let v: u16 = version_map.get_type_version(target_app_version, &name);
        if v < 1 || v > 4 {
            return Err(VersionizeError::UnknownVersion);
        }
        let res1 = self.field1.serialize(out, version_map, target_app_version);
        if res1.is_err() {
            return res1;
        }
        if v >= 2 {
            let res2 = self.field2.serialize(out, version_map, target_app_version);
            if res2.is_err() {
                return res2;
            }
        }
        if v >= 3 {
            let res3 = self.field3.serialize(out, version_map, target_app_version);
            if res3.is_err() {
                return res3;
            }
        }
        if v >= 4 {
            let res4 = self.field4.serialize(out, version_map, target_app_version);
            if res4.is_err() {
                return res4;
            }
        }
        proof {
            assert(out@ =~= old(out)@ + self.spec_encode(*version_map, target_app_version));
        }
        Ok(())
    }

    fn deserialize(reader: &mut Reader, version_map: &VersionMap, src_app_version: u16) -> (r:
        Result<DemoConfig, VersionizeError>) {
        let ghost rem0 = old(reader).remaining();
        let name = Self::name();
        let v: u16 = version_map.get_type_version(src_app_version, &name);
        if v < 1 || v > 4 {
            return Err(VersionizeError::UnknownVersion);
        }
        let field1 = match u32::deserialize(reader, version_map, src_app_version) {
            Ok(x) => x,
            Err(e) => {
                return Err(e);
            },
        };
        let field2: u64 = if v >= 2 {
            let ghost rem4 = reader.remaining();
            proof {
                assert(rem4 =~= rem0.skip(4));
            }
            match u64::deserialize(reader, version_map, src_app_version) {
                Ok(x) => x,
                Err(e) => {
                    return Err(e);
                },
            }
        } else {
            20
        };
        let ghost rem_mid = reader.remaining();
        proof {
            if v >= 2 {
                assert(rem_mid =~= rem0.skip(12));
            }
        }
        let field3: String = if v >= 3 {
            match String::deserialize(reader, version_map, src_app_version) {
                Ok(x) => x,
                Err(e) => {
                    return Err(e);
                },
            }
        } else {
            "default".to_owned()
        };
        let ghost k = (reader.pos - old(reader).pos - 12) as nat;
        let ghost rem_tail = reader.remaining();
        let field4: Vec<u64> = if v >= 4 {
            match <Vec<u64> as Versionize>::deserialize(reader, version_map, src_app_version) {
                Ok(x) => x,
                Err(e) => {
                    proof {
                        assert forall|val: DemoConfig, n: nat|
                            !DemoConfig::spec_decodes(
                                rem0,
                                *version_map,
                                src_app_version,
                                val,
                                n,
                            ) by {
                            if DemoConfig::spec_decodes(rem0, *version_map, src_app_version, val, n) {
                                let (k2, m2): (nat, nat) = choose|k2: nat, m2: nat|
                                    {
                                        &&& #[trigger] <String as Versionize>::spec_decodes(
                                            rem0.skip(12),
                                            *version_map,
                                            src_app_version,
                                            val.field3,
                                            k2,
                                        )
                                        &&& #[trigger] <Vec<u64> as Versionize>::spec_decodes(
                                            rem0.skip(12int + k2),
                                            *version_map,
                                            src_app_version,
                                            val.field4,
                                            m2,
                                        )
                                        &&& n == 12 + k2 + m2
                                    };
                                assert(<String as Versionize>::spec_decodes(
                                    rem0.skip(12),
                                    *version_map,
                                    src_app_version,
                                    field3,
                                    k,
                                ));
                                <String as Versionize>::lemma_decode_len(
                                    rem0.skip(12),
                                    *version_map,
                                    src_app_version,
                                    val.field3,
                                    k2,
                                    field3,
                                    k,
                                );
                                vstd::seq_lib::lemma_seq_skip_of_skip(rem0, 12, k as int);
                                assert(rem_tail =~= rem0.skip(12 + k as int));
                                assert(!<Vec<u64> as Versionize>::spec_decodes(
                                    rem_tail,
                                    *version_map,
                                    src_app_version,
                                    val.field4,
                                    m2,
                                ));
                            }
                        }
                    }
                    return Err(e);
                },
            }
        } else {
            vec![1u64, 2u64, 3u64, 4u64]
        };
        let cfg = DemoConfig { field1, field2, field3, field4 };
        proof {
            let nn = (reader.pos - old(reader).pos) as nat;
            if v >= 3 {
                assert(<String as Versionize>::spec_decodes(
                    rem0.skip(12),
                    *version_map,
                    src_app_version,
                    cfg.field3,
                    k,
                ));
            }
            if v >= 4 {
                vstd::seq_lib::lemma_seq_skip_of_skip(rem0, 12, k as int);
                assert(rem_tail =~= rem0.skip(12 + k as int));
                let m = (reader.pos - old(reader).pos - 12 - k) as nat;
                assert(<Vec<u64> as Versionize>::spec_decodes(
                    rem0.skip(12 + k as int),
                    *version_map,
                    src_app_version,
                    cfg.field4,
                    m,
                ));
            }
            if v < 4 {
                assert(cfg.field4@ =~= seq![1u64, 2u64, 3u64, 4u64]);
            }
            assert(DemoConfig::spec_decodes(rem0, *version_map, src_app_version, cfg, nn));
        }
        Ok(cfg)
    }

    fn name() -> (r: String) {
        "DemoConfig".to_owned()
    }

    fn version() -> (r: u16) {
        4
    }
}

/// What decoding an encoded configuration yields, version by version:
/// fields inside the version window come back unchanged and the rest
/// come back as their declared defaults, and the decode consumes the
/// whole encoding.
pub proof fn lemma_demo_config_round_trip(
    s: DemoConfig,
    vm: VersionMap,
    app: u16,
    rest: Seq<u8>,
    val: DemoConfig,
    n: nat,
)
    requires
        s.spec_encode_ok(vm, app),
        vstd::utf8::encode_utf8(s.field3@).len() <= usize::MAX,
        s.field4@.len() <= usize::MAX,
        DemoConfig::spec_decodes(s.spec_encode(vm, app) + rest, vm, app, val, n),
    ensures
        ({
            let v = vm.spec_type_version(app, DemoConfig::spec_name());
            &&& n == s.spec_encode(vm, app).len()
            &&& val.field1 == s.field1
            &&& val.field2 == if v >= 2 {
                s.field2
            } else {
                20u64
            }
            &&& val.field3@ == if v >= 3 {
                s.field3@
            } else {
                "default"@
            }
            &&& val.field4@ == if v >= 4 {
                s.field4@
            } else {
                seq![1u64, 2u64, 3u64, 4u64]
            }
        }),
{
    let v = vm.spec_type_version(app, DemoConfig::spec_name());
    let enc = s.spec_encode(vm, app);
    let b = enc + rest;
    lemma_auto_spec_u32_to_from_le_bytes();
    lemma_auto_spec_u64_to_from_le_bytes();
    assert(b.take(4) =~= spec_u32_to_le_bytes(s.field1));
    if v >= 2 {
        assert(b.skip(4).take(8) =~= spec_u64_to_le_bytes(s.field2));
    }
    if v >= 3 {
        let enc3 = s.field3.spec_encode(vm, app);
        let tail: Seq<u8> = if v >= 4 {
            s.field4.spec_encode(vm, app) + rest
        } else {
            rest
        };
        assert(b.skip(12) =~= enc3 + tail);
        crate::primitives::lemma_string_encode_decodes(s.field3, vm, app, vm, app, tail);
        if v == 3 {
            let k2 = choose|k: nat|
                {
                    &&& #[trigger] <String as Versionize>::spec_decodes(
                        b.skip(12),
                        vm,
                        app,
                        val.field3,
                        k,
                    )
                    &&& n == 12 + k
                };
            crate::primitives::lemma_string_decode_det(
                b.skip(12),
                vm,
                app,
                val.field3,
                k2,
                s.field3,
                enc3.len(),
            );
        } else {
            let (k2, m2): (nat, nat) = choose|k: nat, m: nat|
                {
                    &&& #[trigger] <String as Versionize>::spec_decodes(
                        b.skip(12),
                        vm,
                        app,
                        val.field3,
                        k,
                    )
                    &&& #[trigger] <Vec<u64> as Versionize>::spec_decodes(
                        b.skip(12int + k),
                        vm,
                        app,
                        val.field4,
                        m,
                    )
                    &&& n == 12 + k + m
                };
            crate::primitives::lemma_string_decode_det(
                b.skip(12),
                vm,
                app,
                val.field3,
                k2,
                s.field3,
                enc3.len(),
            );
            let enc4 = s.field4.spec_encode(vm, app);
            assert(b.skip(12int + enc3.len()) =~= enc4 + rest);
            crate::primitives::lemma_vec_u64_encode_decodes(s.field4, vm, app, vm, app, rest);
            crate::primitives::lemma_vec_u64_decode_det(
                b.skip(12int + enc3.len()),
                vm,
                app,
                val.field4,
                m2,
                s.field4,
                enc4.len(),
            );
        }
    }
}


/// A decoded run of register files consumes forty bytes per element.
proof fn lemma_lapics_seq_span(
    bytes: Seq<u8>,
    vm: VersionMap,
    app: u16,
    vals: Seq<kvm_lapic_state>,
    m: nat,
)
    requires
        crate::primitives::seq_decodes(bytes, vm, app, vals, m),
    ensures
        m == 40 * vals.len(),
    decreases vals.len(),
{
    if vals.len() > 0 {
        let n1 = choose|n1: nat|
            {
                &&& #[trigger] kvm_lapic_state::spec_decodes(bytes, vm, app, vals[0], n1)
                &&& n1 <= m
                &&& crate::primitives::seq_decodes(
                    bytes.skip(n1 as int),
                    vm,
                    app,
                    vals.skip(1),
                    (m - n1) as nat,
                )
            };
        let m1 = choose|m1: nat|
            {
                &&& #[trigger] crate::primitives::seq_decodes(
                    bytes.skip(8),
                    vm,
                    app,
                    vals[0].regs@,
                    m1,
                )
                &&& n1 == 8 + m1
            };
        crate::primitives::lemma_seq_decodes_i8_det(bytes.skip(8), vm, app, vals[0].regs@, m1);
        assert(n1 == 40);
        lemma_lapics_seq_span(bytes.skip(40), vm, app, vals.skip(1), (m - 40) as nat);
    }
}

/// A decoded vector of register files consumes the span its prefix
/// announces.
proof fn lemma_vec_lapics_span(
    bytes: Seq<u8>,
    vm: VersionMap,
    app: u16,
    v: Vec<kvm_lapic_state>,
    n: nat,
)
    requires
        <Vec<kvm_lapic_state> as Versionize>::spec_decodes(bytes, vm, app, v, n),
    ensures
        n == 8 + 40 * spec_u64_from_le_bytes(bytes.take(8)),
        v@.len() == spec_u64_from_le_bytes(bytes.take(8)),
{
    let m = choose|m: nat|
        {
            &&& #[trigger] crate::primitives::seq_decodes(bytes.skip(8), vm, app, v@, m)
            &&& n == 8 + m
        };
    lemma_lapics_seq_span(bytes.skip(8), vm, app, v@, m);
}

/// A decoded run of array elements consumes two bytes per element.
proof fn lemma_arr_seq_span(
    bytes: Seq<u8>,
    vm: VersionMap,
    app: u16,
    vals: Seq<ArrayElement>,
    m: nat,
)
    requires
        crate::primitives::seq_decodes(bytes, vm, app, vals, m),
    ensures
        m == 2 * vals.len(),
    decreases vals.len(),
{
    if vals.len() > 0 {
        let n1 = choose|n1: nat|
            {
                &&& #[trigger] ArrayElement::spec_decodes(bytes, vm, app, vals[0], n1)
                &&& n1 <= m
                &&& crate::primitives::seq_decodes(
                    bytes.skip(n1 as int),
                    vm,
                    app,
                    vals.skip(1),
                    (m - n1) as nat,
                )
            };
        lemma_arr_seq_span(bytes.skip(2), vm, app, vals.skip(1), (m - 2) as nat);
    }
}

/// A decoded vector of array elements consumes the span its prefix
/// announces.
proof fn lemma_vec_arr_span(
    bytes: Seq<u8>,
    vm: VersionMap,
    app: u16,
    v: Vec<ArrayElement>,
    n: nat,
)
    requires
        <Vec<ArrayElement> as Versionize>::spec_decodes(bytes, vm, app, v, n),
    ensures
        n == 8 + 2 * spec_u64_from_le_bytes(bytes.take(8)),
        v@.len() == spec_u64_from_le_bytes(bytes.take(8)),
{
    let m = choose|m: nat|
        {
            &&& #[trigger] crate::primitives::seq_decodes(bytes.skip(8), vm, app, v@, m)
            &&& n == 8 + m
        };
    lemma_arr_seq_span(bytes.skip(8), vm, app, v@, m);
}

/// Where the queue vector of an encoded device state ends.
pub open spec fn mmio_lapics_off(bytes: Seq<u8>) -> int {
    49 + spec_u64_from_le_bytes(bytes.skip(41).take(8))
}

/// Where the register files of an encoded device state end.
pub open spec fn mmio_test_off(bytes: Seq<u8>) -> int {
    mmio_lapics_off(bytes) + 8 + 40 * spec_u64_from_le_bytes(bytes.skip(mmio_lapics_off(bytes)).take(8))
}

/// Where the error text of an encoded device state ends.
pub open spec fn mmio_arr_off(bytes: Seq<u8>) -> int {
    mmio_test_off(bytes) + 11 + spec_u64_from_le_bytes(
        bytes.skip(mmio_test_off(bytes) + 3).take(8),
    )
}

/// How many bytes an encoded device state occupies at struct version `v`.
pub open spec fn mmio_end(bytes: Seq<u8>, v: u16) -> int {
    if v == 1 {
        mmio_test_off(bytes) + 2
    } else if v == 2 {
        mmio_test_off(bytes) + 3
    } else if v == 3 {
        mmio_arr_off(bytes)
    } else {
        mmio_arr_off(bytes) + 8 + 2 * spec_u64_from_le_bytes(
            bytes.skip(mmio_arr_off(bytes)).take(8),
        )
    }
}

/// The interrupt line the semantic hook leaves on the wire: where the
/// error text is absent from the wire, it survives as a distinguished
/// interrupt value.
pub open spec fn mmio_sem_irq(s: MmioDeviceState, v: u16) -> u32 {
    if v <= 2 {
        if s.error@ == "alabalaportocala"@ {
            1337u32
        } else {
            1984u32
        }
    } else {
        s.irq
    }
}

/// Paravirtual device state with four struct versions: `flag` appeared
/// in version 2 with default 128, `error` in version 3 guarded by
/// semantic hooks, and `arr` in version 4.
#[derive(Clone, Debug, PartialEq, Eq)]
pub struct MmioDeviceState {
    /// Device base address.
    pub addr: u64,
    /// Interrupt line; carries the semantic encoding of `error` at
    /// versions that lack the field.
    pub irq: u32,
    /// Whether the device was activated.
    pub device_activated: bool,
    /// Selected device feature page.
    pub features_select: u32,
    /// Selected driver feature page.
    pub acked_features_select: u32,
    /// Selected queue index.
    pub queue_select: u32,
    /// Pending interrupt bits.
    pub interrupt_status: usize,
    /// Driver status register.
    pub driver_status: u32,
    /// Configuration generation counter.
    pub config_generation: u32,
    /// Raw queue state bytes.
    pub queues: Vec<u8>,
    /// Per-processor register files.
    pub lapics: Vec<kvm_lapic_state>,
    /// Tri-state device flag.
    pub test: TestState,
    /// Present since version 2; decodes to 128 from older versions.
    pub flag: u8,
    /// Present since version 3; reconstructed from `irq` by the
    /// semantic hooks at older versions.
    pub error: String,
    /// Present since version 4; always two elements.
    pub arr: Vec<ArrayElement>,
}

/// Semantic hook run before encoding at versions that lack `error`:
/// the error text survives as a distinguished interrupt value.
pub fn serialize_error_semantic(input: &mut MmioDeviceState, target_version: u16)
    ensures
        final(input).irq == mmio_sem_irq(*old(input), target_version),
        *final(input) == (MmioDeviceState { irq: final(input).irq, ..*old(input) }),
{
    if target_version <= 2 {
        if input.error == "alabalaportocala".to_owned() {
            input.irq = 1337;
        } else {
            input.irq = 1984;
        }
    }
}

/// Semantic hook run after decoding from versions that lack `error`:
/// the distinguished interrupt value restores the error text.
pub fn deserialize_error_semantic(input: &mut MmioDeviceState, source_version: u16)
    ensures
        final(input).error@ == if source_version <= 2 && old(input).irq == 1337u32 {
            "alabalaportocala"@
        } else {
            old(input).error@
        },
        *final(input) == (MmioDeviceState { error: final(input).error, ..*old(input) }),
{
    if source_version <= 2 && input.irq == 1337 {
        input.error = "alabalaportocala".to_owned();
    }
}

/// Default for `error` when decoding from versions that lack it.
pub fn default_error(_source_version: u16) -> (r: String)
    ensures
        r@ == "default_error"@,
{
    "default_error".to_owned()
}

impl Versionize for MmioDeviceState {
    open spec fn spec_name() -> Seq<char> {
        "MmioDeviceState"@
    }

    open spec fn spec_version() -> u16 {
        4u16
    }

    open spec fn spec_encode_ok(self, vm: VersionMap, app: u16) -> bool {
        1 <= vm.spec_type_version(app, Self::spec_name()) <= 4
    }

    open spec fn spec_encode(self, vm: VersionMap, app: u16) -> Seq<u8> {
        let v = vm.spec_type_version(app, Self::spec_name());
        spec_u64_to_le_bytes(self.addr) + spec_u32_to_le_bytes(mmio_sem_irq(self, v))
            + self.device_activated.spec_encode(vm, app) + spec_u32_to_le_bytes(
            self.features_select,
        ) + spec_u32_to_le_bytes(self.acked_features_select) + spec_u32_to_le_bytes(
            self.queue_select,
        ) + self.interrupt_status.spec_encode(vm, app) + spec_u32_to_le_bytes(self.driver_status)
            + spec_u32_to_le_bytes(self.config_generation) + self.queues.spec_encode(vm, app)
            + self.lapics.spec_encode(vm, app) + self.test.spec_encode(vm, app) + (if v >= 2 {
            seq![self.flag]
        } else {
            Seq::<u8>::empty()
        }) + (if v >= 3 {
            self.error.spec_encode(vm, app)
        } else {
            Seq::<u8>::empty()
        }) + (if v >= 4 {
            self.arr.spec_encode(vm, app)
        } else {
            Seq::<u8>::empty()
        })
    }

    open spec fn spec_decodes(
        bytes: Seq<u8>,
        vm: VersionMap,
        app: u16,
        val: MmioDeviceState,
        n: nat,
    ) -> bool {
        let v = vm.spec_type_version(app, Self::spec_name());
        &&& 1 <= v <= 4
        &&& <u64 as Versionize>::spec_decodes(bytes, vm, app, val.addr, 8)
        &&& <u32 as Versionize>::spec_decodes(bytes.skip(8), vm, app, val.irq, 4)
        &&& <bool as Versionize>::spec_decodes(bytes.skip(12), vm, app, val.device_activated, 1)
        &&& <u32 as Versionize>::spec_decodes(bytes.skip(13), vm, app, val.features_select, 4)
        &&& <u32 as Versionize>::spec_decodes(
            bytes.skip(17),
            vm,
            app,
            val.acked_features_select,
            4,
        )
        &&& <u32 as Versionize>::spec_decodes(bytes.skip(21), vm, app, val.queue_select, 4)
        &&& <usize as Versionize>::spec_decodes(bytes.skip(25), vm, app, val.interrupt_status, 8)
        &&& <u32 as Versionize>::spec_decodes(bytes.skip(33), vm, app, val.driver_status, 4)
        &&& <u32 as Versionize>::spec_decodes(bytes.skip(37), vm, app, val.config_generation, 4)
        &&& <Vec<u8> as Versionize>::spec_decodes(
            bytes.skip(41),
            vm,
            app,
            val.queues,
            (mmio_lapics_off(bytes) - 41) as nat,
        )
        &&& <Vec<kvm_lapic_state> as Versionize>::spec_decodes(
            bytes.skip(mmio_lapics_off(bytes)),
            vm,
            app,
            val.lapics,
            (mmio_test_off(bytes) - mmio_lapics_off(bytes)) as nat,
        )
        &&& TestState::spec_decodes(bytes.skip(mmio_test_off(bytes)), vm, app, val.test, 2)
        &&& (v >= 2 ==> <u8 as Versionize>::spec_decodes(
            bytes.skip(mmio_test_off(bytes) + 2),
            vm,
            app,
            val.flag,
            1,
        ))
        &&& (v < 2 ==> val.flag == 128u8)
        &&& (v >= 3 ==> <String as Versionize>::spec_decodes(
            bytes.skip(mmio_test_off(bytes) + 3),
            vm,
            app,
            val.error,
            (mmio_arr_off(bytes) - mmio_test_off(bytes) - 3) as nat,
        ))
        &&& (v <= 2 ==> val.error@ == (if val.irq == 1337u32 {
            "alabalaportocala"@
        } else {
            "default_error"@
        }))
        &&& (v >= 4 ==> <Vec<ArrayElement> as Versionize>::spec_decodes(
            bytes.skip(mmio_arr_off(bytes)),
            vm,
            app,
            val.arr,
            (mmio_end(bytes, v) - mmio_arr_off(bytes)) as nat,
        ) && val.arr@.len() == 2)
        &&& (v < 4 ==> val.arr@ == seq![
            ArrayElement { x: 0u8, y: 0u8 },
            ArrayElement { x: 0u8, y: 0u8 },
        ])
        &&& n == mmio_end(bytes, v)
    }

    proof fn lemma_decode_bound(
        bytes: Seq<u8>,
        vm: VersionMap,
        app: u16,
        val: MmioDeviceState,
        n: nat,
    ) {
        let v = vm.spec_type_version(app, Self::spec_name());
        <Vec<kvm_lapic_state> as Versionize>::lemma_decode_bound(
            bytes.skip(mmio_lapics_off(bytes)),
            vm,
            app,
            val.lapics,
            (mmio_test_off(bytes) - mmio_lapics_off(bytes)) as nat,
        );
        <Vec<u8> as Versionize>::lemma_decode_bound(
            bytes.skip(41),
            vm,
            app,
            val.queues,
            (mmio_lapics_off(bytes) - 41) as nat,
        );
        if v == 1 || v == 2 {
            assert(bytes.skip(mmio_test_off(bytes)).len() >= 2);
        }
        if v >= 3 {
            <String as Versionize>::lemma_decode_bound(
                bytes.skip(mmio_test_off(bytes) + 3),
                vm,
                app,
                val.error,
                (mmio_arr_off(bytes) - mmio_test_off(bytes) - 3) as nat,
            );
        }
        if v >= 4 {
            <Vec<ArrayElement> as Versionize>::lemma_decode_bound(
                bytes.skip(mmio_arr_off(bytes)),
                vm,
                app,
                val.arr,
                (mmio_end(bytes, v) - mmio_arr_off(bytes)) as nat,
            );
        }
    }

    proof fn lemma_decode_len(
        bytes: Seq<u8>,
        vm: VersionMap,
        app: u16,
        v1: MmioDeviceState,
        n1: nat,
        v2: MmioDeviceState,
        n2: nat,
    ) {
    }

    #[verifier::rlimit(60)]
    fn serialize(&self, out: &mut Vec<u8>, version_map: &VersionMap, target_app_version: u16) -> (r:
        Result<(), VersionizeError>) {
        let name = Self::name();
        let v: u16 = version_map.get_type_version(target_app_version, &name);
        if v < 1 || v > 4 {
            return Err(VersionizeError::UnknownVersion);
        }
        let irq_wire: u32 = if v <= 2 {
            if self.error == "alabalaportocala".to_owned() {
                1337
            } else {
                1984
            }
        } else {
            self.irq
        };
        let r1 = self.addr.serialize(out, version_map, target_app_version);
        if r1.is_err() {
            return r1;
        }
        let r2 = irq_wire.serialize(out, version_map, target_app_version);
        if r2.is_err() {
            return r2;
        }
        let r3 = self.device_activated.serialize(out, version_map, target_app_version);
        if r3.is_err() {
            return r3;
        }
        let r4 = self.features_select.serialize(out, version_map, target_app_version);
        if r4.is_err() {
            return r4;
        }
        let r5 = self.acked_features_select.serialize(out, version_map, target_app_version);
        if r5.is_err() {
            return r5;
        }
        let r6 = self.queue_select.serialize(out, version_map, target_app_version);
        if r6.is_err() {
            return r6;
        }
        let r7 = self.interrupt_status.serialize(out, version_map, target_app_version);
        if r7.is_err() {
            return r7;
        }
        let r8 = self.driver_status.serialize(out, version_map, target_app_version);
        if r8.is_err() {
            return r8;
        }
        let r9 = self.config_generation.serialize(out, version_map, target_app_version);
        if r9.is_err() {
            return r9;
        }
        let r10 = self.queues.serialize(out, version_map, target_app_version);
        if r10.is_err() {
            return r10;
        }
        let r11 = self.lapics.serialize(out, version_map, target_app_version);
        if r11.is_err() {
            return r11;
        }
        let r12 = self.test.serialize(out, version_map, target_app_version);
        if r12.is_err() {
            return r12;
        }
        if v >= 2 {
            let r13 = self.flag.serialize(out, version_map, target_app_version);
            if r13.is_err() {
                return r13;
            }
        }
        if v >= 3 {
            let r14 = self.error.serialize(out, version_map, target_app_version);
            if r14.is_err() {
                return r14;
            }
        }
        if v >= 4 {
            let r15 = self.arr.serialize(out, version_map, target_app_version);
            if r15.is_err() {
                return r15;
            }
        }
        proof {
            assert(out@ =~= old(out)@ + self.spec_encode(*version_map, target_app_version));
        }
        Ok(())
    }

    fn deserialize(reader: &mut Reader, version_map: &VersionMap, src_app_version: u16) -> (r:
        Result<MmioDeviceState, VersionizeError>) {
        let ghost rem0 = old(reader).remaining();
        let name = Self::name();
        let v: u16 = version_map.get_type_version(src_app_version, &name);
        if v < 1 || v > 4 {
            return Err(VersionizeError::UnknownVersion);
        }
        let addr = match u64::deserialize(reader, version_map, src_app_version) {
            Ok(x) => x,
            Err(e) => {
                return Err(e);
            },
        };
        proof {
            assert(reader.remaining() =~= rem0.skip(8));
        }
        let irq = match u32::deserialize(reader, version_map, src_app_version) {
            Ok(x) => x,
            Err(e) => {
                return Err(e);
            },
        };
        proof {
            assert(reader.remaining() =~= rem0.skip(12));
        }
        let device_activated = match bool::deserialize(reader, version_map, src_app_version) {
            Ok(x) => x,
            Err(e) => {
                return Err(e);
            },
        };
        proof {
            assert(reader.remaining() =~= rem0.skip(13));
        }
        let features_select = match u32::deserialize(reader, version_map, src_app_version) {
            Ok(x) => x,
            Err(e) => {
                return Err(e);
            },
        };
        proof {
            assert(reader.remaining() =~= rem0.skip(17));
        }
        let acked_features_select = match u32::deserialize(reader, version_map, src_app_version) {
            Ok(x) => x,
            Err(e) => {
                return Err(e);
            },
        };
        proof {
            assert(reader.remaining() =~= rem0.skip(21));
        }
        let queue_select = match u32::deserialize(reader, version_map, src_app_version) {
            Ok(x) => x,
            Err(e) => {
                return Err(e);
            },
        };
        proof {
            assert(reader.remaining() =~= rem0.skip(25));
        }
        let interrupt_status = match usize::deserialize(reader, version_map, src_app_version) {
            Ok(x) => x,
            Err(e) => {
                return Err(e);
            },
        };
        proof {
            assert(reader.remaining() =~= rem0.skip(33));
        }
        let driver_status = match u32::deserialize(reader, version_map, src_app_version) {
            Ok(x) => x,
            Err(e) => {
                return Err(e);
            },
        };
        proof {
            assert(reader.remaining() =~= rem0.skip(37));
        }
        let config_generation = match u32::deserialize(reader, version_map, src_app_version) {
            Ok(x) => x,
            Err(e) => {
                return Err(e);
            },
        };
        proof {
            assert(reader.remaining() =~= rem0.skip(41));
        }
        let queues = match <Vec<u8> as Versionize>::deserialize(
            reader,
            version_map,
            src_app_version,
        ) {
            Ok(x) => x,
            Err(e) => {
                return Err(e);
            },
        };
        proof {
            crate::primitives::lemma_vec_u8_span(
                rem0.skip(41),
                *version_map,
                src_app_version,
                queues,
                (reader.pos - old(reader).pos - 41) as nat,
            );
            assert(reader.remaining() =~= rem0.skip(mmio_lapics_off(rem0)));
        }
        let lapics = match <Vec<kvm_lapic_state> as Versionize>::deserialize(
            reader,
            version_map,
            src_app_version,
        ) {
            Ok(x) => x,
            Err(e) => {
                return Err(e);
            },
        };
        proof {
            lemma_vec_lapics_span(
                rem0.skip(mmio_lapics_off(rem0)),
                *version_map,
                src_app_version,
                lapics,
                (reader.pos - old(reader).pos - mmio_lapics_off(rem0)) as nat,
            );
            assert(reader.remaining() =~= rem0.skip(mmio_test_off(rem0)));
        }
        let test = match TestState::deserialize(reader, version_map, src_app_version) {
            Ok(x) => x,
            Err(e) => {
                return Err(e);
            },
        };
        proof {
            assert(reader.remaining() =~= rem0.skip(mmio_test_off(rem0) + 2));
        }
        let flag: u8 = if v >= 2 {
            match u8::deserialize(reader, version_map, src_app_version) {
                Ok(x) => x,
                Err(e) => {
                    return Err(e);
                },
            }
        } else {
            128
        };
        proof {
            if v >= 2 {
                assert(reader.remaining() =~= rem0.skip(mmio_test_off(rem0) + 3));
            }
        }
        let mut error: String = if v >= 3 {
            match String::deserialize(reader, version_map, src_app_version) {
                Ok(x) => x,
                Err(e) => {
                    return Err(e);
                },
            }
        } else {
            default_error(src_app_version)
        };
        proof {
            if v >= 3 {
                assert(reader.remaining() =~= rem0.skip(mmio_arr_off(rem0)));
            }
        }
        if v <= 2 && irq == 1337 {
            error = "alabalaportocala".to_owned();
        }
        let arr: Vec<ArrayElement> = if v >= 4 {
            let decoded_arr = match <Vec<ArrayElement> as Versionize>::deserialize(
                reader,
                version_map,
                src_app_version,
            ) {
                Ok(x) => x,
                Err(e) => {
                    return Err(e);
                },
            };
            if decoded_arr.len() != 2 {
                proof {
                    lemma_vec_arr_span(
                        rem0.skip(mmio_arr_off(rem0)),
                        *version_map,
                        src_app_version,
                        decoded_arr,
                        (reader.pos - old(reader).pos - mmio_arr_off(rem0)) as nat,
                    );
                    assert forall|val: MmioDeviceState, n: nat|
                        !MmioDeviceState::spec_decodes(
                            rem0,
                            *version_map,
                            src_app_version,
                            val,
                            n,
                        ) by {
                        if MmioDeviceState::spec_decodes(rem0, *version_map, src_app_version, val, n) {
                            lemma_vec_arr_span(
                                rem0.skip(mmio_arr_off(rem0)),
                                *version_map,
                                src_app_version,
                                val.arr,
                                (mmio_end(rem0, v) - mmio_arr_off(rem0)) as nat,
                            );
                        }
                    }
                }
                return Err(VersionizeError::ArrayLength);
            }
            decoded_arr
        } else {
            let mut defaults: Vec<ArrayElement> = Vec::new();
            defaults.push(ArrayElement { x: 0, y: 0 });
            defaults.push(ArrayElement { x: 0, y: 0 });
            defaults
        };
        let state = MmioDeviceState {
            addr,
            irq,
            device_activated,
            features_select,
            acked_features_select,
            queue_select,
            interrupt_status,
            driver_status,
            config_generation,
            queues,
            lapics,
            test,
            flag,
            error,
            arr,
        };
        proof {
            let nn = (reader.pos - old(reader).pos) as nat;
            if v < 4 {
                assert(state.arr@ =~= seq![
                    ArrayElement { x: 0u8, y: 0u8 },
                    ArrayElement { x: 0u8, y: 0u8 },
                ]);
            }
            if v >= 4 {
                lemma_vec_arr_span(
                    rem0.skip(mmio_arr_off(rem0)),
                    *version_map,
                    src_app_version,
                    state.arr,
                    (reader.pos - old(reader).pos - mmio_arr_off(rem0)) as nat,
                );
            }
            assert(MmioDeviceState::spec_decodes(rem0, *version_map, src_app_version, state, nn));
        }
        Ok(state)
    }

    fn name() -> (r: String) {
        "MmioDeviceState".to_owned()
    }

    fn version() -> (r: u16) {
        4
    }
}


/// Union-style interrupt level: several typed fields alias one 32-byte
/// storage block, little-endian.  Encoding writes only the largest field
/// visible at the chosen version: the 4-byte interrupt word at version 1,
/// the full 4-word block at version 2.
#[derive(Clone, Debug, PartialEq, Eq)]
pub struct IrqLevel {
    /// The shared backing storage all fields alias; always 32 bytes.
    pub storage: Vec<u8>,
}

impl Default for IrqLevel {
    /// A zeroed level, as a zeroed union would be.
    fn default() -> (r: IrqLevel)
        ensures
            r.wf(),
            forall|i: int| 0 <= i < 32 ==> r.storage@[i] == 0u8,
    {
        IrqLevel { storage: vec![0u8; 32] }
    }
}

impl IrqLevel {
    /// The storage block has its fixed width.
    pub open spec fn wf(self) -> bool {
        self.storage@.len() == 32
    }

    /// The interrupt word: the low four storage bytes.
    pub fn irq(&self) -> (r: u32)
        requires
            self.wf(),
        ensures
            r == spec_u32_from_le_bytes(self.storage@.take(4)),
    {
        let whole: &[u8] = self.storage.as_slice();
        let part: &[u8] = &whole[0..4];
        proof {
            assert(part@ =~= self.storage@.take(4));
        }
        u32_from_le_bytes(part)
    }

    /// The extended status: the low eight storage bytes as a signed word.
    pub fn extended_status(&self) -> (r: i64)
        requires
            self.wf(),
        ensures
            r == spec_u64_from_le_bytes(self.storage@.take(8)) as i64,
    {
        let whole: &[u8] = self.storage.as_slice();
        let part: &[u8] = &whole[0..8];
        proof {
            assert(part@ =~= self.storage@.take(8));
        }
        u64_from_le_bytes(part) as i64
    }

    /// Stores the extended status over the low eight storage bytes.
    pub fn set_extended_status(&mut self, v: i64)
        requires
            old(self).wf(),
        ensures
            final(self).wf(),
            final(self).storage@ == crate::mmap::splice_bytes(
                old(self).storage@,
                0,
                spec_u64_to_le_bytes(v as u64),
            ),
    {
        let data = u64_to_le_bytes(v as u64);
        let mut i: usize = 0;
        while i < 8
            invariant
                0 <= i <= 8,
                data@ == spec_u64_to_le_bytes(v as u64),
                data@.len() == 8,
                self.storage@.len() == 32,
                forall|k: int| 0 <= k < i ==> self.storage@[k] == data@[k],
                forall|k: int| i <= k < 32 ==> self.storage@[k] == old(self).storage@[k],
            decreases 8 - i,
        {
            self.storage.set(i, data[i]);
            i = i + 1;
        }
        proof {
            assert(self.storage@ =~= crate::mmap::splice_bytes(
                old(self).storage@,
                0,
                spec_u64_to_le_bytes(v as u64),
            ));
        }
    }
}

impl Versionize for IrqLevel {
    open spec fn spec_name() -> Seq<char> {
        "IrqLevel"@
    }

    open spec fn spec_version() -> u16 {
        2u16
    }

    open spec fn spec_encode_ok(self, vm: VersionMap, app: u16) -> bool {
        &&& self.wf()
        &&& 1 <= vm.spec_type_version(app, Self::spec_name()) <= 2
    }

    open spec fn spec_encode(self, vm: VersionMap, app: u16) -> Seq<u8> {
        let v = vm.spec_type_version(app, Self::spec_name());
        if v == 1 {
            self.storage@.take(4)
        } else {
            spec_u64_to_le_bytes(4u64) + self.storage@
        }
    }

    open spec fn spec_decodes(bytes: Seq<u8>, vm: VersionMap, app: u16, val: IrqLevel, n: nat) -> bool {
        let v = vm.spec_type_version(app, Self::spec_name());
        &&& 1 <= v <= 2
        &&& val.storage@.len() == 32
        &&& (v == 1 ==> {
            &&& bytes.len() >= 4
            &&& n == 4
            &&& val.storage@.take(4) == bytes.take(4)
            &&& forall|i: int| 4 <= i < 32 ==> val.storage@[i] == 0u8
        })
        &&& (v == 2 ==> {
            &&& bytes.len() >= 40
            &&& spec_u64_from_le_bytes(bytes.take(8)) == 4
            &&& n == 40
            &&& val.storage@ == bytes.subrange(8, 40)
        })
    }

    proof fn lemma_decode_bound(bytes: Seq<u8>, vm: VersionMap, app: u16, val: IrqLevel, n: nat) {
    }

    proof fn lemma_decode_len(
        bytes: Seq<u8>,
        vm: VersionMap,
        app: u16,
        v1: IrqLevel,
        n1: nat,
        v2: IrqLevel,
        n2: nat,
    ) {
    }

    fn serialize(&self, out: &mut Vec<u8>, version_map: &VersionMap, target_app_version: u16) -> (r:
        Result<(), VersionizeError>) {
        let name = Self::name();
        let v: u16 = version_map.get_type_version(target_app_version, &name);
        if v < 1 || v > 2 {
            return Err(VersionizeError::UnknownVersion);
        }
        if self.storage.len() != 32 {
            return Err(VersionizeError::ArrayLength);
        }
        if v == 1 {
            let whole: &[u8] = self.storage.as_slice();
            let part: &[u8] = &whole[0..4];
            let mut word = vstd::slice::slice_to_vec(part);
            out.append(&mut word);
            proof {
                assert(out@ =~= old(out)@ + self.spec_encode(*version_map, target_app_version));
            }
        } else {
            let mut pre = u64_to_le_bytes(4u64);
            out.append(&mut pre);
            let mut block = vstd::slice::slice_to_vec(self.storage.as_slice());
            out.append(&mut block);
            proof {
                assert(out@ =~= old(out)@ + self.spec_encode(*version_map, target_app_version));
            }
        }
        Ok(())
    }

    fn deserialize(reader: &mut Reader, version_map: &VersionMap, src_app_version: u16) -> (r:
        Result<IrqLevel, VersionizeError>) {
        let ghost rem0 = old(reader).remaining();
        let name = Self::name();
        let v: u16 = version_map.get_type_version(src_app_version, &name);
        if v < 1 || v > 2 {
            return Err(VersionizeError::UnknownVersion);
        }
        if v == 1 {
            match reader.take(4) {
                Ok(word) => {
                    let mut storage = vstd::slice::slice_to_vec(word);
                    let mut i: usize = 0;
                    while i < 28
                        invariant
                            0 <= i <= 28,
                            storage@.len() == 4 + i,
                            storage@.take(4) == rem0.take(4),
                            forall|k: int| 4 <= k < 4 + i ==> storage@[k] == 0u8,
                        decreases 28 - i,
                    {
                        storage.push(0u8);
                        proof {
                            assert(storage@.take(4) =~= rem0.take(4));
                        }
                        i = i + 1;
                    }
                    let lvl = IrqLevel { storage };
                    proof {
                        assert(lvl.storage@.take(4) =~= rem0.take(4));
                    }
                    Ok(lvl)
                },
                Err(e) => Err(e),
            }
        } else {
            let cnt: u64 = match reader.take(8) {
                Ok(s) => {
                    proof {
                        assert(s@ =~= rem0.take(8));
                    }
                    u64_from_le_bytes(s)
                },
                Err(e) => {
                    return Err(e);
                },
            };
            if cnt != 4 {
                return Err(VersionizeError::ArrayLength);
            }
            match reader.take(32) {
                Ok(block) => {
                    proof {
                        assert(block@ =~= rem0.subrange(8, 40));
                    }
                    let storage = vstd::slice::slice_to_vec(block);
                    Ok(IrqLevel { storage })
                },
                Err(e) => Err(e),
            }
        }
    }

    fn name() -> (r: String) {
        "IrqLevel".to_owned()
    }

    fn version() -> (r: u16) {
        2
    }
}


/// How many bytes an encoded string occupies: its length prefix plus the
/// text the prefix announces.
pub open spec fn string_span(bytes: Seq<u8>) -> int {
    8 + spec_u64_from_le_bytes(bytes.take(8))
}

/// Default for `StateA::z` when decoding from versions that lack it.
pub fn default_a_z(_source_version: u16) -> (r: String)
    ensures
        r@ == "whatever"@,
{
    "whatever".to_owned()
}

/// The first field the semantic hook leaves on the wire at versions that
/// still carry it: where `q` is absent, it survives truncated in `x`.
pub open spec fn spec_semantic_x(s: StateA, v: u16) -> u32 {
    if v < 3 {
        (s.q as u32) as u32
    } else {
        s.x
    }
}

/// Semantic hook run before encoding at versions that lack `q`.
pub fn semantic_x(input: &mut StateA, target_version: u16)
    ensures
        final(input).x == spec_semantic_x(*old(input), target_version),
        *final(input) == (StateA { x: final(input).x, ..*old(input) }),
{
    if target_version < 3 {
        input.x = #[verifier::truncate] (input.q as u32);
    }
}

/// Inner state with a retired field: `x` existed only in version 1, `z`
/// appeared in version 2 with a default, and `q` in version 3 guarded by
/// a semantic hook.
#[derive(Clone, Debug, PartialEq, Eq)]
pub struct StateA {
    /// Present only in version 1; the semantic hook stores `q` here.
    pub x: u32,
    /// Present in every version.
    pub y: String,
    /// Present since version 2; decodes to its default text from older
    /// versions.
    pub z: String,
    /// Present since version 3; decodes to zero from older versions.
    pub q: u64,
}

impl Versionize for StateA {
    open spec fn spec_name() -> Seq<char> {
        "StateA"@
    }

    open spec fn spec_version() -> u16 {
        3u16
    }

    open spec fn spec_encode_ok(self, vm: VersionMap, app: u16) -> bool {
        1 <= vm.spec_type_version(app, Self::spec_name()) <= 3
    }

    open spec fn spec_encode(self, vm: VersionMap, app: u16) -> Seq<u8> {
        let v = vm.spec_type_version(app, Self::spec_name());
        (if v == 1 {
            spec_u32_to_le_bytes(spec_semantic_x(self, v))
        } else {
            Seq::<u8>::empty()
        }) + self.y.spec_encode(vm, app) + (if v >= 2 {
            self.z.spec_encode(vm, app)
        } else {
            Seq::<u8>::empty()
        }) + (if v >= 3 {
            spec_u64_to_le_bytes(self.q)
        } else {
            Seq::<u8>::empty()
        })
    }

    open spec fn spec_decodes(bytes: Seq<u8>, vm: VersionMap, app: u16, val: StateA, n: nat) -> bool {
        let v = vm.spec_type_version(app, Self::spec_name());
        &&& 1 <= v <= 3
        &&& (v == 1 ==> {
            &&& <u32 as Versionize>::spec_decodes(bytes, vm, app, val.x, 4)
            &&& <String as Versionize>::spec_decodes(
                bytes.skip(4),
                vm,
                app,
                val.y,
                (string_span(bytes.skip(4))) as nat,
            )
            &&& val.z@ == "whatever"@
            &&& val.q == 0u64
            &&& n == 4 + string_span(bytes.skip(4))
        })
        &&& (v >= 2 ==> {
            &&& val.x == 0u32
            &&& <String as Versionize>::spec_decodes(
                bytes,
                vm,
                app,
                val.y,
                (string_span(bytes)) as nat,
            )
            &&& <String as Versionize>::spec_decodes(
                bytes.skip(string_span(bytes)),
                vm,
                app,
                val.z,
                (string_span(bytes.skip(string_span(bytes)))) as nat,
            )
        })
        &&& (v == 2 ==> {
            &&& val.q == 0u64
            &&& n == string_span(bytes) + string_span(bytes.skip(string_span(bytes)))
        })
        &&& (v == 3 ==> {
            &&& <u64 as Versionize>::spec_decodes(
                bytes.skip(string_span(bytes) + string_span(bytes.skip(string_span(bytes)))),
                vm,
                app,
                val.q,
                8,
            )
            &&& n == string_span(bytes) + string_span(bytes.skip(string_span(bytes))) + 8
        })
    }

    proof fn lemma_decode_bound(bytes: Seq<u8>, vm: VersionMap, app: u16, val: StateA, n: nat) {
        let v = vm.spec_type_version(app, Self::spec_name());
        if v == 1 {
            <String as Versionize>::lemma_decode_bound(
                bytes.skip(4),
                vm,
                app,
                val.y,
                (string_span(bytes.skip(4))) as nat,
            );
        }
        if v >= 2 {
            <String as Versionize>::lemma_decode_bound(
                bytes,
                vm,
                app,
                val.y,
                (string_span(bytes)) as nat,
            );
            <String as Versionize>::lemma_decode_bound(
                bytes.skip(string_span(bytes)),
                vm,
                app,
                val.z,
                (string_span(bytes.skip(string_span(bytes)))) as nat,
            );
        }
        if v == 3 {
            <u64 as Versionize>::lemma_decode_bound(
                bytes.skip(string_span(bytes) + string_span(bytes.skip(string_span(bytes)))),
                vm,
                app,
                val.q,
                8,
            );
        }
    }

    proof fn lemma_decode_len(
        bytes: Seq<u8>,
        vm: VersionMap,
        app: u16,
        v1: StateA,
        n1: nat,
        v2: StateA,
        n2: nat,
    ) {
    }

    #[verifier::rlimit(60)]
    fn serialize(&self, out: &mut Vec<u8>, version_map: &VersionMap, target_app_version: u16) -> (r:
        Result<(), VersionizeError>) {
        let name = Self::name();
        let v: u16 = version_map.get_type_version(target_app_version, &name);
        if v < 1 || v > 3 {
            return Err(VersionizeError::UnknownVersion);
        }
        if v == 1 {
            let x_wire: u32 = if v < 3 {
                #[verifier::truncate] (self.q as u32)
            } else {
                self.x
            };
            let r1 = x_wire.serialize(out, version_map, target_app_version);
            if r1.is_err() {
                return r1;
            }
        }
        let r2 = self.y.serialize(out, version_map, target_app_version);
        if r2.is_err() {
            return r2;
        }
        if v >= 2 {
            let r3 = self.z.serialize(out, version_map, target_app_version);
            if r3.is_err() {
                return r3;
            }
        }
        if v >= 3 {
            let r4 = self.q.serialize(out, version_map, target_app_version);
            if r4.is_err() {
                return r4;
            }
        }
        proof {
            assert(out@ =~= old(out)@ + self.spec_encode(*version_map, target_app_version));
        }
        Ok(())
    }

    fn deserialize(reader: &mut Reader, version_map: &VersionMap, src_app_version: u16) -> (r:
        Result<StateA, VersionizeError>) {
        let ghost rem0 = old(reader).remaining();
        let name = Self::name();
        let v: u16 = version_map.get_type_version(src_app_version, &name);
        if v < 1 || v > 3 {
            return Err(VersionizeError::UnknownVersion);
        }
        let x: u32 = if v == 1 {
            match u32::deserialize(reader, version_map, src_app_version) {
                Ok(w) => w,
                Err(e) => {
                    return Err(e);
                },
            }
        } else {
            0
        };
        let ghost y_off: int = if v == 1 {
            4
        } else {
            0
        };
        let ghost rem_y = reader.remaining();
        proof {
            assert(rem_y =~= rem0.skip(y_off));
        }
        let y: String = match String::deserialize(reader, version_map, src_app_version) {
            Ok(w) => w,
            Err(e) => {
                return Err(e);
            },
        };
        let ghost rem_z = reader.remaining();
        let z: String = if v >= 2 {
            match String::deserialize(reader, version_map, src_app_version) {
                Ok(w) => w,
                Err(e) => {
                    proof {
                        assert(rem_z =~= rem0.skip(string_span(rem0)));
                    }
                    return Err(e);
                },
            }
        } else {
            default_a_z(src_app_version)
        };
        let ghost rem_q = reader.remaining();
        let q: u64 = if v >= 3 {
            match u64::deserialize(reader, version_map, src_app_version) {
                Ok(w) => w,
                Err(e) => {
                    proof {
                        assert(rem_z =~= rem0.skip(string_span(rem0)));
                        assert(rem_q =~= rem0.skip(
                            string_span(rem0) + string_span(rem0.skip(string_span(rem0))),
                        ));
                    }
                    return Err(e);
                },
            }
        } else {
            0
        };
        let a = StateA { x, y, z, q };
        proof {
            let nn = (reader.pos - old(reader).pos) as nat;
            if v == 1 {
                assert(<String as Versionize>::spec_decodes(
                    rem0.skip(4),
                    *version_map,
                    src_app_version,
                    a.y,
                    (string_span(rem0.skip(4))) as nat,
                ));
            }
            if v >= 2 {
                assert(rem_z =~= rem0.skip(string_span(rem0)));
                assert(<String as Versionize>::spec_decodes(
                    rem0.skip(string_span(rem0)),
                    *version_map,
                    src_app_version,
                    a.z,
                    (string_span(rem0.skip(string_span(rem0)))) as nat,
                ));
            }
            if v == 3 {
                assert(rem_q =~= rem0.skip(
                    string_span(rem0) + string_span(rem0.skip(string_span(rem0))),
                ));
                assert(<u64 as Versionize>::spec_decodes(
                    rem0.skip(string_span(rem0) + string_span(rem0.skip(string_span(rem0)))),
                    *version_map,
                    src_app_version,
                    a.q,
                    8,
                ));
            }
            assert(StateA::spec_decodes(rem0, *version_map, src_app_version, a, nn));
        }
        Ok(a)
    }

    fn name() -> (r: String) {
        "StateA".to_owned()
    }

    fn version() -> (r: u16) {
        3
    }
}

/// How many bytes an encoded `StateA` occupies on the wire.
pub open spec fn statea_span(bytes: Seq<u8>, vm: VersionMap, app: u16) -> int {
    let v = vm.spec_type_version(app, StateA::spec_name());
    if v == 1 {
        4 + string_span(bytes.skip(4))
    } else if v == 2 {
        string_span(bytes) + string_span(bytes.skip(string_span(bytes)))
    } else {
        string_span(bytes) + string_span(bytes.skip(string_span(bytes))) + 8
    }
}

/// Outer state carrying a versioned inner state next to its own field.
#[derive(Clone, Debug, PartialEq, Eq)]
pub struct StateB {
    /// The versioned inner state.
    pub a: StateA,
    /// Plain outer payload.
    pub b: u64,
}

impl Versionize for StateB {
    open spec fn spec_name() -> Seq<char> {
        "StateB"@
    }

    open spec fn spec_version() -> u16 {
        1u16
    }

    open spec fn spec_encode_ok(self, vm: VersionMap, app: u16) -> bool {
        self.a.spec_encode_ok(vm, app)
    }

    open spec fn spec_encode(self, vm: VersionMap, app: u16) -> Seq<u8> {
        self.a.spec_encode(vm, app) + spec_u64_to_le_bytes(self.b)
    }

    open spec fn spec_decodes(bytes: Seq<u8>, vm: VersionMap, app: u16, val: StateB, n: nat) -> bool {
        &&& StateA::spec_decodes(bytes, vm, app, val.a, (statea_span(bytes, vm, app)) as nat)
        &&& <u64 as Versionize>::spec_decodes(
            bytes.skip(statea_span(bytes, vm, app)),
            vm,
            app,
            val.b,
            8,
        )
        &&& n == statea_span(bytes, vm, app) + 8
    }

    proof fn lemma_decode_bound(bytes: Seq<u8>, vm: VersionMap, app: u16, val: StateB, n: nat) {
        StateA::lemma_decode_bound(
            bytes,
            vm,
            app,
            val.a,
            (statea_span(bytes, vm, app)) as nat,
        );
        <u64 as Versionize>::lemma_decode_bound(
            bytes.skip(statea_span(bytes, vm, app)),
            vm,
            app,
            val.b,
            8,
        );
    }

    proof fn lemma_decode_len(
        bytes: Seq<u8>,
        vm: VersionMap,
        app: u16,
        v1: StateB,
        n1: nat,
        v2: StateB,
        n2: nat,
    ) {
    }

    fn serialize(&self, out: &mut Vec<u8>, version_map: &VersionMap, target_app_version: u16) -> (r:
        Result<(), VersionizeError>) {
        let r1 = self.a.serialize(out, version_map, target_app_version);
        if r1.is_err() {
            return r1;
        }
        let r2 = self.b.serialize(out, version_map, target_app_version);
        if r2.is_err() {
            return r2;
        }
        proof {
            assert(out@ =~= old(out)@ + self.spec_encode(*version_map, target_app_version));
        }
        Ok(())
    }

    fn deserialize(reader: &mut Reader, version_map: &VersionMap, src_app_version: u16) -> (r:
        Result<StateB, VersionizeError>) {
        let ghost rem0 = old(reader).remaining();
        let a: StateA = match StateA::deserialize(reader, version_map, src_app_version) {
            Ok(w) => w,
            Err(e) => {
                proof {
                    assert forall|val: StateB, n: nat|
                        !StateB::spec_decodes(rem0, *version_map, src_app_version, val, n) by {
                        if StateB::spec_decodes(rem0, *version_map, src_app_version, val, n) {
                            assert(!StateA::spec_decodes(
                                rem0,
                                *version_map,
                                src_app_version,
                                val.a,
                                (statea_span(rem0, *version_map, src_app_version)) as nat,
                            ));
                        }
                    }
                }
                return Err(e);
            },
        };
        let ghost na = (reader.pos - old(reader).pos) as nat;
        let ghost rem_b = reader.remaining();
        proof {
            assert(na == statea_span(rem0, *version_map, src_app_version));
            assert(rem_b =~= rem0.skip(statea_span(rem0, *version_map, src_app_version)));
        }
        let b: u64 = match u64::deserialize(reader, version_map, src_app_version) {
            Ok(w) => w,
            Err(e) => {
                return Err(e);
            },
        };
        Ok(StateB { a, b })
    }

    fn name() -> (r: String) {
        "StateB".to_owned()
    }

    fn version() -> (r: u16) {
        1
    }
}

} // verus!
