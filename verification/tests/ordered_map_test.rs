use starknet_api::api_core::{ClassHash, CompiledClassHash, ContractAddress};
use starknet_api::codec::{decode, encode, CodecError};
use starknet_api::hash::StarkFelt;
use starknet_api::ordered_map::{MapKey, OrderedMap};
use starknet_api::state::EntryPointType;

fn address(n: u32) -> ContractAddress {
    ContractAddress::from(n)
}

fn class(n: u32) -> ClassHash {
    ClassHash(StarkFelt::from(n))
}

#[test]
fn the_default_map_is_empty() {
    let map: OrderedMap<ContractAddress, ClassHash> = OrderedMap::default();
    assert!(map.is_empty());
    assert_eq!(map, OrderedMap::new());
    let class = starknet_api::state::ContractClass::default();
    assert_eq!(class.encode(), vec![0, 0, 0]);
}

#[test]
fn a_new_map_is_empty() {
    let map: OrderedMap<ContractAddress, ClassHash> = OrderedMap::new();
    assert_eq!(map.len(), 0);
    assert!(map.is_empty());
    assert_eq!(map.get_index(0), None);
    assert_eq!(map.get(&address(1)), None);
    assert_eq!(map.keys(), vec![]);
}

#[test]
fn insertion_keeps_the_order_of_first_insertion() {
    let mut map = OrderedMap::new();
    assert_eq!(map.insert(address(3), class(30)), None);
    assert_eq!(map.insert(address(1), class(10)), None);
    assert_eq!(map.insert(address(2), class(20)), None);
    assert_eq!(map.len(), 3);
    assert!(!map.is_empty());
    assert_eq!(map.keys(), vec![address(3), address(1), address(2)]);

    assert_eq!(map.insert(address(1), class(11)), Some(class(10)));
    assert_eq!(map.len(), 3);
    assert_eq!(map.keys(), vec![address(3), address(1), address(2)]);
    assert_eq!(map.get(&address(1)), Some(&class(11)));
    assert_eq!(map.get_index(1), Some((&address(1), &class(11))));
    assert_eq!(map.get_index(3), None);
    assert_eq!(map.get_index_of(&address(2)), Some(2));
    assert_eq!(map.get_index_of(&address(4)), None);
    assert!(map.contains_key(&address(3)));
    assert!(!map.contains_key(&address(4)));
}

#[test]
fn a_clone_is_equal() {
    let mut map = OrderedMap::new();
    map.insert(address(3), vec![1u8, 2]);
    map.insert(address(1), vec![]);
    let copy = map.clone();
    assert_eq!(copy, map);
    assert_eq!(copy.keys(), vec![address(3), address(1)]);
}

#[test]
fn equality_minds_the_order() {
    let mut a = OrderedMap::new();
    a.insert(address(1), class(1));
    a.insert(address(2), class(2));
    let mut b = OrderedMap::new();
    b.insert(address(2), class(2));
    b.insert(address(1), class(1));
    assert_ne!(a, b);
    assert_ne!(encode(&a), encode(&b));
}

#[test]
fn unzip_parts_the_values() {
    let mut map = OrderedMap::new();
    map.insert(class(2), (CompiledClassHash(StarkFelt::from(20_u8)), "two".to_string()));
    map.insert(class(1), (CompiledClassHash(StarkFelt::from(10_u8)), "one".to_string()));
    let (hashes, names) = map.unzip();
    assert_eq!(hashes.keys(), vec![class(2), class(1)]);
    assert_eq!(names.keys(), vec![class(2), class(1)]);
    assert_eq!(hashes.get(&class(1)), Some(&CompiledClassHash(StarkFelt::from(10_u8))));
    assert_eq!(names.get(&class(2)), Some(&"two".to_string()));
    assert_eq!(names.get_index(1), Some((&class(1), &"one".to_string())));
}

#[test]
fn a_map_is_written_in_insertion_order() {
    let mut map = OrderedMap::new();
    map.insert(EntryPointType::L1Handler, 7u64);
    map.insert(EntryPointType::Constructor, 8u64);
    let bytes = encode(&map);
    assert_eq!(bytes, vec![2 << 2, 2, 7, 0, 0, 0, 0, 0, 0, 0, 0, 8, 0, 0, 0, 0, 0, 0, 0]);
    let back: OrderedMap<EntryPointType, u64> = decode(&bytes).unwrap();
    assert_eq!(back, map);
    assert_eq!(back.keys(), vec![EntryPointType::L1Handler, EntryPointType::Constructor]);
}

#[test]
fn a_key_read_twice_keeps_its_first_place_and_its_last_value() {
    let bytes = vec![3 << 2, 2, 7, 0, 0, 0, 0, 0, 0, 0, 0, 8, 0, 0, 0, 0, 0, 0, 0, 2, 9, 0, 0, 0, 0, 0, 0, 0];
    let map: OrderedMap<EntryPointType, u64> = decode(&bytes).unwrap();
    assert_eq!(map.len(), 2);
    assert_eq!(map.get_index(0), Some((&EntryPointType::L1Handler, &9)));
    assert_eq!(map.get_index(1), Some((&EntryPointType::Constructor, &8)));
}

#[test]
fn a_map_with_a_wrong_length_is_refused() {
    let bytes = vec![2 << 2, 2, 7, 0, 0, 0, 0, 0, 0, 0];
    assert_eq!(decode::<OrderedMap<EntryPointType, u64>>(&bytes).err(), Some(CodecError::Truncated));
    let bytes = vec![40 << 2, 2, 7, 0, 0, 0, 0, 0, 0, 0, 0];
    assert_eq!(
        decode::<OrderedMap<EntryPointType, u64>>(&bytes).err(),
        Some(CodecError::LengthOutOfBounds)
    );
    let bytes = vec![1 << 2, 3, 7, 0, 0, 0, 0, 0, 0, 0, 0];
    assert_eq!(
        decode::<OrderedMap<EntryPointType, u64>>(&bytes).err(),
        Some(CodecError::InvalidDiscriminant)
    );
}

#[test]
fn two_integers_stand_for_a_key() {
    assert_eq!(address(1).code(), (0, 1));
    assert_eq!(address(1).code(), class(1).code());
    assert_ne!(address(1).code(), address(2).code());
    assert_eq!(ClassHash(StarkFelt { hi: 7, lo: 9 }).code(), (7, 9));
    assert_eq!(EntryPointType::Constructor.code(), (0, 0));
    assert_eq!(EntryPointType::External.code(), (0, 1));
    assert_eq!(EntryPointType::L1Handler.code(), (0, 2));
}

#[test]
fn keys_that_differ_in_one_half_are_different_keys() {
    let mut map = OrderedMap::new();
    map.insert(ClassHash(StarkFelt { hi: 1, lo: 0 }), 1u64);
    map.insert(ClassHash(StarkFelt { hi: 0, lo: 1 }), 2u64);
    map.insert(ClassHash(StarkFelt { hi: 1, lo: 1 }), 3u64);
    assert_eq!(map.len(), 3);
    assert_eq!(map.get(&ClassHash(StarkFelt { hi: 0, lo: 1 })), Some(&2));
    assert_eq!(map.get_index_of(&ClassHash(StarkFelt { hi: 1, lo: 1 })), Some(2));
    assert_eq!(map.insert(ClassHash(StarkFelt { hi: 1, lo: 0 }), 4), Some(1));
    assert_eq!(map.get_index(0), Some((&ClassHash(StarkFelt { hi: 1, lo: 0 }), &4)));
    assert_eq!(map.get(&ClassHash(StarkFelt { hi: 0, lo: 0 })), None);
}

#[test]
fn a_large_map_finds_each_key() {
    let mut map = OrderedMap::new();
    for n in 0..5000u32 {
        assert_eq!(map.insert(address(n * 7 % 5000), n), None);
    }
    assert_eq!(map.len(), 5000);
    for n in 0..5000u32 {
        assert_eq!(map.get_index_of(&address(n * 7 % 5000)), Some(n as usize));
        assert_eq!(map.get(&address(n * 7 % 5000)), Some(&n));
    }
    assert_eq!(map.get(&address(5000)), None);
    let copy = map.clone();
    assert_eq!(copy, map);
    assert_eq!(copy.get_index_of(&address(7)), Some(1));
}
