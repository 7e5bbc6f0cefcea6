use starknet_api::api_core::{
    ClassHash, CompiledClassHash, ContractAddress, EntryPointSelector, Nonce,
};
use starknet_api::codec::CodecError;
use starknet_api::hash::StarkFelt;
use starknet_api::ordered_map::OrderedMap;
use starknet_api::transaction::{Builtin, ExecutionResources};
use starknet_api::state::{
    ContractClass, EntryPoint, EntryPointType, FunctionIndex, StorageKey, ThinStateDiff,
};

fn sample_thin_state_diff() -> ThinStateDiff {
    let mut deployed_contracts = OrderedMap::new();
    deployed_contracts.insert(ContractAddress::from(1_u32), ClassHash::default());
    deployed_contracts.insert(ContractAddress::from(3_u32), ClassHash::default());

    let mut declared_classes = OrderedMap::new();
    declared_classes.insert(ClassHash::default(), CompiledClassHash::default());
    declared_classes.insert(ClassHash::default(), CompiledClassHash::default());

    let mut storage_diffs = OrderedMap::new();
    let mut storage_updates_1 = OrderedMap::new();
    storage_updates_1.insert(StorageKey::from(9_u32), StarkFelt::from(1_u32));
    storage_updates_1.insert(StorageKey::from(11_u32), StarkFelt::from(12_u32));
    storage_diffs.insert(ContractAddress::from(13_u32), storage_updates_1);
    let mut storage_updates_2 = OrderedMap::new();
    storage_updates_2.insert(StorageKey::from(14_u32), StarkFelt::from(15_u32));
    storage_updates_2.insert(StorageKey::from(16_u32), StarkFelt::from(17_u32));
    storage_diffs.insert(ContractAddress::from(18_u32), storage_updates_2);

    let mut nonces = OrderedMap::new();
    nonces.insert(ContractAddress::from(5_u32), Nonce::default());
    nonces.insert(ContractAddress::from(7_u32), Nonce::default());

    let mut replaced_classes = OrderedMap::new();
    replaced_classes.insert(ContractAddress::from(19_u32), ClassHash::default());
    replaced_classes.insert(ContractAddress::from(21_u32), ClassHash::default());

    let deprecated_declared_classes = vec![ClassHash::default()];

    ThinStateDiff {
        deployed_contracts,
        storage_diffs,
        declared_classes,
        deprecated_declared_classes,
        nonces,
        replaced_classes,
    }
}

#[test]
fn state_test_encode_decode_works() {
    let state_diff = sample_thin_state_diff();

    let encoded = state_diff.encode();

    let decoded = ThinStateDiff::decode(&mut &encoded[..]).unwrap();

    assert_eq!(state_diff, decoded);
}

#[test]
fn thin_state_diff_bytes_are_stable() {
    let state_diff = sample_thin_state_diff();
    let encoded = state_diff.encode();
    let mut input = &encoded[..];
    let decoded = ThinStateDiff::decode(&mut input).unwrap();
    assert!(input.is_empty());
    assert_eq!(decoded.encode(), encoded);
    // two deployed contracts, each an address and a class hash
    assert_eq!(encoded[0], 2 << 2);
    assert_eq!(encoded[32], 1);
    assert_eq!(encoded.len(), 1 + 2 * 64 + 1 + 2 * (32 + 1 + 2 * 64) + 1 + 64 + 1 + 32 + 2 * (1 + 2 * 64));
}

#[test]
fn thin_state_diff_keeps_insertion_order() {
    let mut state_diff = sample_thin_state_diff();
    let mut nonces = OrderedMap::new();
    nonces.insert(ContractAddress::from(7_u32), Nonce(StarkFelt::from(2_u32)));
    nonces.insert(ContractAddress::from(5_u32), Nonce(StarkFelt::from(1_u32)));
    state_diff.nonces = nonces;
    let encoded = state_diff.encode();
    let decoded = ThinStateDiff::decode(&mut &encoded[..]).unwrap();
    assert_eq!(decoded, state_diff);
    assert_eq!(
        decoded.nonces.keys(),
        vec![ContractAddress::from(7_u32), ContractAddress::from(5_u32)]
    );
}

#[test]
fn thin_state_diff_truncated_input_is_refused() {
    let encoded = sample_thin_state_diff().encode();
    for cut in 0..encoded.len() {
        assert!(ThinStateDiff::decode(&mut &encoded[..cut]).is_err());
    }
    assert_eq!(ThinStateDiff::decode(&mut &encoded[..0]), Err(CodecError::Truncated));
    assert_eq!(ThinStateDiff::decode(&mut &encoded[..1]), Err(CodecError::LengthOutOfBounds));
}

#[test]
fn state_test_encode_decode_work() {
    let sierra_program =
        vec![StarkFelt::from(0u128), StarkFelt::from(1u128), StarkFelt::from(u128::MAX)];
    let abi = String::from("Some string");
    let mut entry_points_by_type = OrderedMap::new();
    entry_points_by_type.insert(
        EntryPointType::Constructor,
        vec![EntryPoint {
            function_idx: FunctionIndex(100),
            selector: EntryPointSelector(StarkFelt::from(9u128)),
        }],
    );
    entry_points_by_type.insert(
        EntryPointType::External,
        vec![EntryPoint {
            function_idx: FunctionIndex(12),
            selector: EntryPointSelector(StarkFelt::from(66u128)),
        }],
    );

    let contract_class = ContractClass { sierra_program, entry_points_by_type, abi };

    let encoded = contract_class.encode();
    let decoded = ContractClass::decode(&mut &encoded[..]).unwrap();

    assert_eq!(contract_class, decoded);
}

#[test]
fn contract_class_unknown_tag_is_refused() {
    let mut entry_points_by_type = OrderedMap::new();
    entry_points_by_type.insert(EntryPointType::L1Handler, Vec::new());
    let contract_class =
        ContractClass { sierra_program: Vec::new(), entry_points_by_type, abi: String::new() };
    let mut encoded = contract_class.encode();
    assert_eq!(encoded, vec![0, 1 << 2, 2, 0, 0]);
    encoded[2] = 3;
    assert_eq!(ContractClass::decode(&mut &encoded[..]), Err(CodecError::InvalidDiscriminant));
}

#[test]
fn contract_class_abi_must_be_utf8() {
    let encoded = vec![0, 0, 2 << 2, 0xc3, 0x28];
    assert_eq!(ContractClass::decode(&mut &encoded[..]), Err(CodecError::InvalidUtf8));
    let encoded = vec![0, 0, 2 << 2, 0xc3, 0xa9];
    let class = ContractClass::decode(&mut &encoded[..]).unwrap();
    assert_eq!(class.abi, "\u{e9}");
}

#[test]
fn entry_point_type_defaults_to_external() {
    assert_eq!(EntryPointType::default(), EntryPointType::External);
    assert_eq!(EntryPointType::Constructor.tag(), 0);
    assert_eq!(EntryPointType::External.tag(), 1);
    assert_eq!(EntryPointType::L1Handler.tag(), 2);
    assert_eq!(EntryPointType::of_tag(3), None);
}

#[test]
fn transaction_test_encode_decode_work() {
    let steps = 30u64;
    let memory_holes = 12u64;
    let mut builtin_instance_counter = OrderedMap::new();
    for (builtin, count) in vec![
        (Builtin::RangeCheck, 0u64),
        (Builtin::Pedersen, 1u64),
        (Builtin::Poseidon, 2u64),
        (Builtin::EcOp, 3u64),
        (Builtin::Ecdsa, 4u64),
        (Builtin::Bitwise, 5u64),
        (Builtin::Keccak, 6u64),
        (Builtin::SegmentArena, 7u64),
    ] {
        builtin_instance_counter.insert(builtin, count);
    }

    let execution_resources = ExecutionResources { steps, builtin_instance_counter, memory_holes };

    let encoded = execution_resources.encode();
    let decoded = ExecutionResources::decode(&mut &encoded[..]).unwrap();

    assert_eq!(execution_resources, decoded);
}

#[test]
fn execution_resources_wire_layout() {
    let mut builtin_instance_counter = OrderedMap::new();
    builtin_instance_counter.insert(Builtin::SegmentArena, 1u64);
    builtin_instance_counter.insert(Builtin::RangeCheck, 2u64);
    let resources = ExecutionResources { steps: 3, builtin_instance_counter, memory_holes: 4 };
    let mut expected = vec![3, 0, 0, 0, 0, 0, 0, 0, 2 << 2];
    expected.extend([7, 1, 0, 0, 0, 0, 0, 0, 0]);
    expected.extend([0, 2, 0, 0, 0, 0, 0, 0, 0]);
    expected.extend([4, 0, 0, 0, 0, 0, 0, 0]);
    assert_eq!(resources.encode(), expected);
    let mut wrong = expected.clone();
    wrong[9] = 8;
    assert_eq!(ExecutionResources::decode(&mut &wrong[..]), Err(CodecError::InvalidDiscriminant));
    assert_eq!(Builtin::of_tag(7), Some(Builtin::SegmentArena));
    assert_eq!(Builtin::of_tag(8), None);
}
