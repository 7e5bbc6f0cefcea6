use starknet_api::api_core::{ClassHash, CompiledClassHash, ContractAddress, Nonce};
use starknet_api::deprecated_contract_class::{
    ContractClass as DeprecatedContractClass, Program,
};
use starknet_api::hash::StarkFelt;
use starknet_api::ordered_map::OrderedMap;
use starknet_api::state::{ContractClass, StateDiff, StorageKey, ThinStateDiff};

fn class(n: u32) -> ClassHash {
    ClassHash(StarkFelt::from(n))
}

fn body(abi: &str) -> ContractClass {
    ContractClass {
        sierra_program: vec![StarkFelt::from(1_u8)],
        entry_points_by_type: OrderedMap::new(),
        abi: abi.to_string(),
    }
}

fn legacy_body(scope: &str) -> DeprecatedContractClass {
    let text = format!(
        r#"{{"builtins":[],"data":[],"hints":{{}},"identifiers":{{}},"main_scope":"{}","prime":"0x1","reference_manager":{{}}}}"#,
        scope
    );
    DeprecatedContractClass {
        abi: None,
        program: Program::from_json(&text).unwrap(),
        entry_points_by_type: OrderedMap::new(),
    }
}

fn sample_diff() -> StateDiff {
    let mut deployed_contracts = OrderedMap::new();
    deployed_contracts.insert(ContractAddress::from(1_u32), class(100));
    deployed_contracts.insert(ContractAddress::from(2_u32), class(101));
    let mut storage_diffs = OrderedMap::new();
    let mut updates = OrderedMap::new();
    updates.insert(StorageKey::from(9_u32), StarkFelt::from(1_u32));
    storage_diffs.insert(ContractAddress::from(1_u32), updates);
    let mut declared_classes = OrderedMap::new();
    declared_classes.insert(class(7), (CompiledClassHash(StarkFelt::from(70_u8)), body("seven")));
    declared_classes.insert(class(5), (CompiledClassHash(StarkFelt::from(50_u8)), body("five")));
    let mut deprecated_declared_classes = OrderedMap::new();
    deprecated_declared_classes.insert(class(4), legacy_body("four"));
    deprecated_declared_classes.insert(class(3), legacy_body("three"));
    let mut nonces = OrderedMap::new();
    nonces.insert(ContractAddress::from(1_u32), Nonce(StarkFelt::from(1_u8)));
    let mut replaced_classes = OrderedMap::new();
    replaced_classes.insert(ContractAddress::from(2_u32), class(102));
    StateDiff {
        deployed_contracts,
        storage_diffs,
        declared_classes,
        deprecated_declared_classes,
        nonces,
        replaced_classes,
    }
}

#[test]
fn reduction_parts_the_declared_classes() {
    let diff = sample_diff();
    let (thin, declared, deprecated) = ThinStateDiff::from_state_diff(diff.clone());

    assert_eq!(thin.deployed_contracts, diff.deployed_contracts);
    assert_eq!(thin.storage_diffs, diff.storage_diffs);
    assert_eq!(thin.nonces, diff.nonces);
    assert_eq!(thin.replaced_classes, diff.replaced_classes);

    assert_eq!(thin.declared_classes.keys(), vec![class(7), class(5)]);
    assert_eq!(
        thin.declared_classes.get(&class(7)),
        Some(&CompiledClassHash(StarkFelt::from(70_u8)))
    );
    assert_eq!(
        thin.declared_classes.get(&class(5)),
        Some(&CompiledClassHash(StarkFelt::from(50_u8)))
    );
    assert_eq!(declared.keys(), vec![class(7), class(5)]);
    assert_eq!(declared.get(&class(7)), Some(&body("seven")));
    assert_eq!(declared.get(&class(5)), Some(&body("five")));

    assert_eq!(thin.deprecated_declared_classes, vec![class(4), class(3)]);
    assert_eq!(deprecated, diff.deprecated_declared_classes);
}

#[test]
fn reduction_keeps_the_class_hashes_apart() {
    let diff = sample_diff();
    let (thin, declared, deprecated) = ThinStateDiff::from_state_diff(diff.clone());
    assert_eq!(thin.declared_classes.keys(), diff.declared_classes.keys());
    assert_eq!(declared.keys(), thin.declared_classes.keys());
    assert_eq!(deprecated.keys(), thin.deprecated_declared_classes);
    for hash in thin.declared_classes.keys() {
        assert!(!thin.deprecated_declared_classes.contains(&hash));
    }
}

#[test]
fn the_thin_form_alone() {
    let diff = sample_diff();
    let thin = ThinStateDiff::from(diff.clone());
    assert_eq!(thin, ThinStateDiff::from_state_diff(diff).0);
    let encoded = thin.encode();
    assert_eq!(ThinStateDiff::decode(&mut &encoded[..]).unwrap(), thin);
}

#[test]
fn an_empty_diff_reduces_to_an_empty_diff() {
    let diff = StateDiff {
        deployed_contracts: OrderedMap::new(),
        storage_diffs: OrderedMap::new(),
        declared_classes: OrderedMap::new(),
        deprecated_declared_classes: OrderedMap::new(),
        nonces: OrderedMap::new(),
        replaced_classes: OrderedMap::new(),
    };
    let (thin, declared, deprecated) = ThinStateDiff::from_state_diff(diff);
    assert!(declared.is_empty());
    assert!(deprecated.is_empty());
    assert_eq!(thin.encode(), vec![0, 0, 0, 0, 0, 0]);
    assert_eq!(thin.size_hint(), 6);
}

#[test]
fn size_hints_count_the_lengths() {
    let (thin, declared, _) = ThinStateDiff::from_state_diff(sample_diff());
    assert_eq!(thin.size_hint(), (6 + 1) + 2 * 64 + 64 + 2 * 64 + 32 + 2 * 32 + 64);
    let class = declared.get(&class(7)).unwrap();
    assert_eq!(class.size_hint(), (4 + 32) + 1 + 0 + (4 + 5));
}
