use vmm_core::codec::{Versionize, VersionizeError};
use vmm_core::snapshot::{
    build_magic_id, validate_magic_id, Snapshot, BASE_MAGIC_ID, SNAPSHOT_FORMAT_VERSION,
};
use vmm_core::version_map::VersionMap;
use vmm_core::versioned::{
    kvm_lapic_state, kvm_pit_config, ArrayElement, DemoConfig, DemoConfigV1, IrqLevel,
    MmioDeviceState, StateA, StateB, TestState,
};

fn key(name: &str) -> String {
    name.to_string()
}

#[test]
fn magic_id_round_trip_concrete() {
    assert_eq!(validate_magic_id(build_magic_id(1)), Some(1));
    assert_eq!(validate_magic_id(build_magic_id(0x7fff)), Some(0x7fff));
    // Any change to the architecture-tag bits makes validation fail.
    let magic = build_magic_id(1);
    assert_eq!(validate_magic_id(magic ^ (1 << 20)), None);
    assert_eq!(validate_magic_id(!BASE_MAGIC_ID), None);
}

#[test]
fn version_map_lookup() {
    let mut vm = VersionMap::new();
    assert_eq!(vm.get_latest_version(), 1);
    assert_eq!(vm.get_type_version(1, &key("DemoConfig")), 1);
    vm.new_version().set_type_version(DemoConfig::name(), 2);
    assert_eq!(vm.get_latest_version(), 2);
    assert_eq!(vm.get_type_version(1, &key("DemoConfig")), 1);
    assert_eq!(vm.get_type_version(2, &key("DemoConfig")), 2);
    assert_eq!(vm.get_type_version(2, &key("TestState")), 1);
}

#[test]
fn test_struct_default_fn() {
    let mut vm = VersionMap::new();
    vm.new_version()
        .set_type_version(DemoConfig::name(), 2)
        .new_version()
        .set_type_version(DemoConfig::name(), 3)
        .new_version()
        .set_type_version(DemoConfig::name(), 4);
    let state = DemoConfig {
        field1: 1,
        field2: 2,
        field3: "test".to_string(),
        field4: vec![4, 3, 2, 1],
    };

    let state_1 = DemoConfigV1 { field1: 1 };

    // Serialize as v1.
    let mut snapshot = Snapshot::new(vm.clone(), 1);
    snapshot.write_section(&key("test"), &state_1).unwrap();
    let snapshot_mem = snapshot.save();

    let snapshot = Snapshot::load(&snapshot_mem, vm.clone()).unwrap();
    let restored_state: DemoConfig = snapshot.read_section(&key("test")).unwrap().unwrap();
    assert_eq!(restored_state.field1, state_1.field1);
    assert_eq!(restored_state.field2, 20);
    assert_eq!(restored_state.field3, "default");
    assert_eq!(restored_state.field4, vec![1, 2, 3, 4]);

    // Serialize as v2.
    let mut snapshot = Snapshot::new(vm.clone(), 2);
    snapshot.write_section(&key("test"), &state).unwrap();
    let snapshot_mem = snapshot.save();

    let snapshot = Snapshot::load(&snapshot_mem, vm.clone()).unwrap();
    let restored_state: DemoConfig = snapshot.read_section(&key("test")).unwrap().unwrap();
    assert_eq!(restored_state.field1, state.field1);
    assert_eq!(restored_state.field2, 2);
    assert_eq!(restored_state.field3, "default");
    assert_eq!(restored_state.field4, vec![1, 2, 3, 4]);

    // Serialize as v3.
    let mut snapshot = Snapshot::new(vm.clone(), 3);
    snapshot.write_section(&key("test"), &state).unwrap();
    let snapshot_mem = snapshot.save();

    let snapshot = Snapshot::load(&snapshot_mem, vm.clone()).unwrap();
    let restored_state: DemoConfig = snapshot.read_section(&key("test")).unwrap().unwrap();
    assert_eq!(restored_state.field1, state.field1);
    assert_eq!(restored_state.field2, 2);
    assert_eq!(restored_state.field3, "test");
    assert_eq!(restored_state.field4, vec![1, 2, 3, 4]);

    // Serialize as v4.
    let mut snapshot = Snapshot::new(vm.clone(), 4);
    snapshot.write_section(&key("test"), &state).unwrap();
    let snapshot_mem = snapshot.save();

    let snapshot = Snapshot::load(&snapshot_mem, vm.clone()).unwrap();
    let restored_state: DemoConfig = snapshot.read_section(&key("test")).unwrap().unwrap();
    assert_eq!(restored_state.field1, state.field1);
    assert_eq!(restored_state.field2, 2);
    assert_eq!(restored_state.field3, "test");
    assert_eq!(restored_state.field4, vec![4, 3, 2, 1]);
}

#[test]
fn test_union_version() {
    let mut state = IrqLevel::default();
    state.set_extended_status(0x1234_5678_8765_4321);

    let vm = VersionMap::new();
    // Serialize as v1.
    let mut snapshot = Snapshot::new(vm.clone(), 1);
    snapshot.write_section(&key("test"), &state).unwrap();
    let snapshot_mem = snapshot.save();

    let snapshot = Snapshot::load(&snapshot_mem, vm.clone()).unwrap();
    let restored_state: IrqLevel = snapshot.read_section(&key("test")).unwrap().unwrap();
    assert_eq!(restored_state.irq(), 0x8765_4321);
}

#[test]
fn test_kvm_bindings_struct() {
    let state = kvm_pit_config {
        flags: 123456,
        pad: vec![0; 15],
    };

    let vm = VersionMap::new();
    // Serialize as v1.
    let mut snapshot = Snapshot::new(vm.clone(), 1);
    snapshot.write_section(&key("test"), &state).unwrap();
    let snapshot_mem = snapshot.save();

    let snapshot = Snapshot::load(&snapshot_mem, vm.clone()).unwrap();
    let restored_state: kvm_pit_config = snapshot.read_section(&key("test")).unwrap().unwrap();
    println!("State: {:?}", restored_state);
    assert_eq!(restored_state, state);
}

#[test]
fn test_basic_add_remove_field() {
    let mut vm = VersionMap::new();
    vm.new_version()
        .set_type_version(StateA::name(), 2)
        .new_version()
        .set_type_version(StateA::name(), 3);

    let state = StateB {
        a: StateA {
            x: 0,
            y: "test".to_string(),
            z: "basic".to_string(),
            q: 1234,
        },
        b: 20,
    };

    // Serialize as v1.
    let mut snapshot = Snapshot::new(vm.clone(), 1);
    snapshot.write_section(&key("test"), &state).unwrap();
    let snapshot_mem = snapshot.save();

    let snapshot = Snapshot::load(&snapshot_mem, vm.clone()).unwrap();
    let restored_state: StateB = snapshot.read_section(&key("test")).unwrap().unwrap();
    println!("State: {:?}", restored_state);
    // The semantic hook ran: the retired field carries the new one's value.
    assert_eq!(restored_state.a.x, 1234);
    assert_eq!(restored_state.a.z, "whatever");

    // Serialize as v2.
    let mut snapshot = Snapshot::new(vm.clone(), 2);
    snapshot.write_section(&key("test"), &state).unwrap();
    let snapshot_mem = snapshot.save();

    let snapshot = Snapshot::load(&snapshot_mem, vm.clone()).unwrap();
    let restored_state: StateB = snapshot.read_section(&key("test")).unwrap().unwrap();
    println!("State: {:?}", restored_state);
    // The retired field was not serialized: it comes back zero.
    assert_eq!(restored_state.a.x, 0);
    // The field added in version 2 kept its original value.
    assert_eq!(restored_state.a.z, "basic");

    // Serialize as v3.
    let mut snapshot = Snapshot::new(vm.clone(), 3);
    snapshot.write_section(&key("test"), &state).unwrap();
    let snapshot_mem = snapshot.save();

    let snapshot = Snapshot::load(&snapshot_mem, vm.clone()).unwrap();
    let restored_state: StateB = snapshot.read_section(&key("test")).unwrap().unwrap();
    println!("State: {:?}", restored_state);
    assert_eq!(restored_state.a.x, 0);
    assert_eq!(restored_state.a.z, "basic");
    assert_eq!(restored_state.a.q, 1234);
}

fn four_version_map() -> VersionMap {
    // App v1 starts here. All structs/enums are at v1.
    let mut vm = VersionMap::new();
    // App v2 starts here,
    vm.new_version()
        .set_type_version(MmioDeviceState::name(), 2)
        .set_type_version(TestState::name(), 2)
        // App v3 starts here,
        .new_version()
        .set_type_version(MmioDeviceState::name(), 3)
        .set_type_version(TestState::name(), 3)
        // App v4 starts here,
        .new_version()
        .set_type_version(MmioDeviceState::name(), 4);
    vm
}

fn sample_device_state() -> MmioDeviceState {
    MmioDeviceState {
        addr: 1234,
        irq: 3,
        device_activated: true,
        features_select: 123456,
        acked_features_select: 653421,
        queue_select: 2,
        interrupt_status: 88,
        driver_status: 0,
        config_generation: 0,
        queues: vec![0; 64],
        lapics: vec![
            kvm_lapic_state { regs: vec![-5; 32] },
            kvm_lapic_state { regs: vec![-5; 32] },
            kvm_lapic_state { regs: vec![-5; 32] },
        ],
        test: TestState::Three,
        flag: 90,
        error: "alabalaportocala".to_string(),
        arr: vec![ArrayElement { x: 1, y: 5 }; 2],
    }
}

fn saved_v1_device_snapshot(vm: &VersionMap) -> Vec<u8> {
    let target_app_version = 1;
    let mut snapshot = Snapshot::new(vm.clone(), target_app_version);

    let lapic = kvm_lapic_state { regs: vec![-5; 32] };
    let state = sample_device_state();
    snapshot.write_section(&key("first"), &state).unwrap();
    let mut state2 = state.clone();
    state2.addr = 5678;
    state2.test = TestState::One;

    snapshot.write_section(&key("second"), &state2).unwrap();
    snapshot.write_section(&key("lapic"), &lapic).unwrap();

    snapshot.save()
}

#[test]
fn test_serialize_older_2_versions() {
    let vm = four_version_map();
    let snapshot_mem = saved_v1_device_snapshot(&vm);
    println!("Saved");

    let loaded_snapshot = Snapshot::load(&snapshot_mem, vm.clone()).unwrap();
    let state1: MmioDeviceState = loaded_snapshot
        .read_section(&key("first"))
        .unwrap()
        .unwrap();
    println!("Restore state1 {:?}", state1);
    assert_eq!(state1.addr, 1234);
    assert_eq!(state1.irq, 1337);

    let state2: MmioDeviceState = loaded_snapshot
        .read_section(&key("second"))
        .unwrap()
        .unwrap();
    println!("Restore state2 {:?}", state2);
    assert_eq!(state2.addr, 5678);
    assert_eq!(state2.irq, 1337);
}

#[test]
fn test_rollback_2_versions() {
    // A snapshot written at app version 1 loads under a map that only
    // knows version 1.
    let snapshot_mem = saved_v1_device_snapshot(&four_version_map());
    let vm = VersionMap::new();
    let snapshot = Snapshot::load(&snapshot_mem, vm.clone()).unwrap();

    let state1: MmioDeviceState = snapshot.read_section(&key("first")).unwrap().unwrap();
    assert_eq!(state1.addr, 1234);
    assert_eq!(state1.irq, 1337);

    let state2: MmioDeviceState = snapshot.read_section(&key("second")).unwrap().unwrap();
    assert_eq!(state2.addr, 5678);
    assert_eq!(state2.irq, 1337);
}

#[test]
fn test_live_update_2_versions() {
    // A snapshot written at app version 1 loads under a map that has
    // grown three more versions since.
    let vm = four_version_map();
    let snapshot_mem = saved_v1_device_snapshot(&vm);

    let loaded_snapshot = Snapshot::load(&snapshot_mem, vm.clone()).unwrap();
    let state1: MmioDeviceState = loaded_snapshot
        .read_section(&key("first"))
        .unwrap()
        .unwrap();
    println!("Restore state1 {:?}", state1);
    assert_eq!(state1.error, "alabalaportocala");
    assert_eq!(state1.test, TestState::One);

    let state2: MmioDeviceState = loaded_snapshot
        .read_section(&key("second"))
        .unwrap()
        .unwrap();
    println!("Restore state2 {:?}", state2);
    assert_eq!(state2.error, "alabalaportocala");
}

#[test]
fn absent_section_reads_none() {
    let vm = VersionMap::new();
    let mut snapshot = Snapshot::new(vm, 1);
    snapshot.write_section(&key("present"), &7u32).unwrap();
    let missing: Option<u32> = snapshot.read_section(&key("absent")).unwrap();
    assert!(missing.is_none());
    let present: u32 = snapshot.read_section(&key("present")).unwrap().unwrap();
    assert_eq!(present, 7);
}

#[test]
fn section_replaced_by_name() {
    let vm = VersionMap::new();
    let mut snapshot = Snapshot::new(vm, 1);
    snapshot.write_section(&key("value"), &1u64).unwrap();
    snapshot.write_section(&key("value"), &2u64).unwrap();
    let v: u64 = snapshot.read_section(&key("value")).unwrap().unwrap();
    assert_eq!(v, 2);
}

#[test]
fn oversized_section_rejected() {
    let vm = VersionMap::new();
    let mut snapshot = Snapshot::new(vm, 1);
    // The length prefix alone pushes the encoding over the ceiling.
    let big = vec![0u8; 0x40000];
    let res = snapshot.write_section(&key("big"), &big);
    assert_eq!(res.err().unwrap(), VersionizeError::LengthOverflow);
}

#[test]
fn wrong_array_length_rejected() {
    let vm = VersionMap::new();
    let mut snapshot = Snapshot::new(vm, 1);
    let short = kvm_lapic_state { regs: vec![-5; 3] };
    snapshot.write_section(&key("lapic"), &short).unwrap();
    let res: Result<Option<kvm_lapic_state>, VersionizeError> =
        snapshot.read_section(&key("lapic"));
    assert_eq!(res.err().unwrap(), VersionizeError::ArrayLength);
}

#[test]
fn unknown_struct_version_rejected() {
    let mut vm = VersionMap::new();
    vm.new_version().set_type_version(DemoConfig::name(), 9);
    let mut snapshot = Snapshot::new(vm, 2);
    let state = DemoConfig {
        field1: 1,
        field2: 2,
        field3: "test".to_string(),
        field4: vec![1],
    };
    let res = snapshot.write_section(&key("cfg"), &state);
    assert_eq!(res.err().unwrap(), VersionizeError::UnknownVersion);
}

#[test]
fn truncated_snapshot_rejected() {
    let vm = VersionMap::new();
    let mut snapshot = Snapshot::new(vm.clone(), 1);
    snapshot.write_section(&key("value"), &5u32).unwrap();
    let bytes = snapshot.save();
    let res = Snapshot::load(&bytes[..4], vm.clone());
    assert_eq!(res.err().unwrap(), VersionizeError::EndOfData);
    let res2 = Snapshot::load(&bytes[..bytes.len() - 1], vm);
    assert!(res2.is_err());
}

#[test]
fn foreign_magic_rejected() {
    let vm = VersionMap::new();
    let bytes = vec![0xFFu8; 16];
    let res = Snapshot::load(&bytes, vm);
    assert_eq!(res.err().unwrap(), VersionizeError::InvalidEncoding);
}

#[test]
fn snapshot_format_version_is_one() {
    assert_eq!(SNAPSHOT_FORMAT_VERSION, 1);
    assert_eq!(Snapshot::format_version_map().get_latest_version(), 1);
}
