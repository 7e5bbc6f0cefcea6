use parity_scale_codec::Encode;
use starknet_api::api_core::{ContractAddress, PatriciaKey};
use starknet_api::codec::{
    decode, decode_bytes, decode_sequence, encode, encode_bytes, encode_sequence, recode,
    text_of_bytes, Codec, CodecError, JsonField,
};
use starknet_api::deprecated_contract_class::{EntryPoint, EntryPointOffset};
use starknet_api::hash::StarkFelt;
use starknet_api::json::{decode_blob, encode_blob, json_is_valid};
use starknet_api::serde_utils::{decimal, InnerDeserializationError};
use starknet_api::state::{StorageKey, ThinStateDiff};
use starknet_api::ordered_map::OrderedMap;
use starknet_api::StarknetApiError;

#[test]
fn felts_are_32_bytes_most_significant_first() {
    let felt = StarkFelt::from(0x0102_u16);
    let bytes = encode(&felt);
    let mut expected = vec![0u8; 32];
    expected[30] = 1;
    expected[31] = 2;
    assert_eq!(bytes, expected);
    assert_eq!(decode::<StarkFelt>(&bytes), Ok(felt));
    assert_eq!(decode::<StarkFelt>(&bytes[..31]), Err(CodecError::Truncated));
    let felt = StarkFelt { hi: 0x0123_4567_89ab_cdef_0011_2233_4455_6677, lo: u128::MAX - 1 };
    assert_eq!(decode::<StarkFelt>(&encode(&felt)), Ok(felt));
    assert_eq!(encode(&felt)[..16], felt.hi.to_be_bytes());
    assert_eq!(encode(&felt)[16..], felt.lo.to_be_bytes());
    assert_eq!(StarkFelt::from(7_u8), StarkFelt::from_u128(7));
    assert_eq!(StarkFelt::from(7_u64), StarkFelt::from(7_u32));
    assert!(StarkFelt::from(7_u128).same(&StarkFelt::from(7_u8)));
}

#[test]
fn felts_beyond_the_range_are_refused() {
    let mut bytes = [0u8; 32];
    bytes[0] = 0x0f;
    bytes[31] = 0x01;
    let felt = StarkFelt::new(bytes).unwrap();
    assert_eq!(felt.to_be_bytes(), bytes);
    assert_eq!(felt.hex_text(), format!("0x{}{}01", "f", "0".repeat(60)));
    bytes[0] = 0x10;
    assert_eq!(
        StarkFelt::new(bytes),
        Err(StarknetApiError::OutOfRange { string: format!("0x1{}01", "0".repeat(61)) })
    );
    assert_eq!(StarkFelt::default().hex_text(), "0x0");
    assert_eq!(StarkFelt::from(0xabc_u16).hex_text(), "0xabc");
    assert_eq!(StarkFelt { hi: 1, lo: 0 }.hex_text(), format!("0x1{}", "0".repeat(32)));
    assert_eq!(StarkFelt { hi: 0xa0, lo: 0xb }.hex_text(), format!("0xa0{}b", "0".repeat(31)));
}

#[test]
fn keys_of_the_state_tree_are_below_their_bound() {
    let bound = StarkFelt { hi: 1 << 123, lo: 0 };
    let below = StarkFelt { hi: (1 << 123) - 1, lo: u128::MAX };
    let range =
        "[0x0, 0x800000000000000000000000000000000000000000000000000000000000000)".to_string();
    assert_eq!(PatriciaKey::try_from(below), Ok(PatriciaKey(below)));
    assert_eq!(
        PatriciaKey::try_from(bound),
        Err(StarknetApiError::OutOfRange { string: range.clone() })
    );
    assert_eq!(ContractAddress::try_from(below), Ok(ContractAddress(PatriciaKey(below))));
    assert_eq!(
        ContractAddress::try_from(bound),
        Err(StarknetApiError::OutOfRange { string: range.clone() })
    );
    assert_eq!(StorageKey::try_from(below), Ok(StorageKey(PatriciaKey(below))));
    assert_eq!(StorageKey::try_from(bound), Err(StarknetApiError::OutOfRange { string: range }));
    assert_eq!(StarkFelt::from(StorageKey::from(9_u32)), StarkFelt::from(9_u8));
    assert_eq!(PatriciaKey(below).key(), &below);
}

#[test]
fn building_blocks_are_written_as_the_scale_codec_writes_them() {
    assert_eq!(encode(&0x0102_0304_0506_0708_u64), 0x0102_0304_0506_0708_u64.encode());
    assert_eq!(encode(&(1u64, 2u64)), (1u64, 2u64).encode());
    assert_eq!(encode(&Some(5u64)), Some(5u64).encode());
    assert_eq!(encode(&None::<u64>), None::<u64>.encode());
    assert_eq!(encode(&"héllo".to_string()), "héllo".to_string().encode());
    assert_eq!(encode(&String::new()), String::new().encode());
    let numbers: Vec<u64> = (0..100).collect();
    assert_eq!(encode(&numbers), numbers.encode());
    let nested = vec![vec![1u64], vec![], vec![2, 3]];
    assert_eq!(encode(&nested), nested.encode());
    let felt = StarkFelt::from(u128::MAX);
    assert_eq!(encode(&felt), felt.to_be_bytes().encode());

    assert_eq!(decode::<u64>(&[8, 7, 6, 5, 4, 3, 2, 1]), Ok(0x0102_0304_0506_0708));
    assert_eq!(decode::<u64>(&[8, 7, 6, 5, 4, 3, 2]), Err(CodecError::Truncated));
    assert_eq!(decode::<Option<u64>>(&[2]), Err(CodecError::InvalidDiscriminant));
    assert_eq!(decode::<Option<u64>>(&[]), Err(CodecError::Truncated));
    assert_eq!(decode::<(u64, String)>(&(9u64, "x".to_string()).encode()), Ok((9, "x".to_string())));
    assert_eq!(decode::<Vec<Vec<u64>>>(&nested.encode()), Ok(nested));
}

#[test]
fn a_thin_state_diff_is_written_as_the_scale_codec_writes_its_parts() {
    let mut deployed_contracts = OrderedMap::new();
    deployed_contracts
        .insert(ContractAddress::from(3_u32), starknet_api::api_core::ClassHash(StarkFelt::from(4_u8)));
    let mut storage_diffs = OrderedMap::new();
    let mut updates = OrderedMap::new();
    updates.insert(StorageKey::from(9_u32), StarkFelt::from(1_u32));
    updates.insert(StorageKey::from(8_u32), StarkFelt::from(2_u32));
    storage_diffs.insert(ContractAddress::from(13_u32), updates);
    let diff = ThinStateDiff {
        deployed_contracts,
        storage_diffs,
        declared_classes: OrderedMap::new(),
        deprecated_declared_classes: vec![starknet_api::api_core::ClassHash(StarkFelt::from(5_u8))],
        nonces: OrderedMap::new(),
        replaced_classes: OrderedMap::new(),
    };
    let felt = |n: u8| StarkFelt::from(n).to_be_bytes();
    type Pairs = Vec<([u8; 32], [u8; 32])>;
    let expected = (
        vec![(felt(3), felt(4))],
        vec![(felt(13), vec![(felt(9), felt(1)), (felt(8), felt(2))])],
        Pairs::new(),
        vec![felt(5)],
        Pairs::new(),
        Pairs::new(),
    )
        .encode();
    assert_eq!(diff.encode(), expected);
}

#[test]
fn sequences_keep_their_order() {
    let items = vec![3u64, 1, 2];
    let mut bytes = vec![0xaa];
    encode_sequence(&items, &mut bytes);
    assert_eq!(bytes[..2], [0xaa, 3 << 2]);
    assert_eq!(decode_sequence::<u64>(&bytes, 1), Ok((items.clone(), bytes.len())));
    bytes.push(0xbb);
    assert_eq!(decode_sequence::<u64>(&bytes, 1), Ok((items, bytes.len() - 1)));
    assert_eq!(decode_sequence::<u64>(&[2 << 2, 0], 0), Err(CodecError::LengthOutOfBounds));
    assert_eq!(decode_sequence::<u64>(&[1 << 2, 0, 0], 0), Err(CodecError::Truncated));
    assert_eq!(decode_sequence::<u64>(&[1, 0], 0), Err(CodecError::NonMinimal));
    assert_eq!(decode_sequence::<u64>(&[], 0), Err(CodecError::Truncated));
    assert_eq!(decode_sequence::<u64>(&[0], 0), Ok((vec![], 1)));
}

#[test]
fn byte_strings_and_texts() {
    let mut bytes = Vec::new();
    encode_bytes(&[1, 2, 3], &mut bytes);
    assert_eq!(bytes, vec![3 << 2, 1, 2, 3]);
    assert_eq!(decode_bytes(&bytes, 0), Ok((vec![1, 2, 3], 4)));
    assert_eq!(decode_bytes(&bytes[..3], 0), Err(CodecError::LengthOutOfBounds));
    assert_eq!(text_of_bytes(vec![b'o', b'k']), Ok("ok".to_string()));
    assert_eq!(text_of_bytes(vec![0xff]), Err(CodecError::InvalidUtf8));
    assert_eq!(text_of_bytes(vec![0xed, 0xa0, 0x80]), Err(CodecError::InvalidUtf8));
    assert_eq!(starknet_api::text::concat("ab", "cd"), "abcd");
    assert_eq!(starknet_api::text::concat("é", ""), "é");
    assert_eq!(starknet_api::text::text_of_ascii(vec![b'0', b'x']), "0x");
}

#[test]
fn writing_and_reading_again_gives_the_value() {
    assert_eq!(recode(&vec![Some("a".to_string()), None]), vec![Some("a".to_string()), None]);
    let entry = EntryPoint { offset: EntryPointOffset(9), ..EntryPoint::default() };
    assert_eq!(recode(&entry), entry);
    let mut bytes = Vec::new();
    entry.encode_to(&mut bytes);
    assert_eq!(bytes.len(), 40);
    assert_eq!(bytes[32], 9);
    assert_eq!(EntryPoint::decode_at(&bytes, 0), Ok((entry, 40)));
}

#[test]
fn blobs_are_json_texts_behind_their_length() {
    let mut bytes = Vec::new();
    encode_blob("{\"a\":1}", &mut bytes);
    assert_eq!(bytes[0], 7 << 2);
    assert_eq!(&bytes[1..], b"{\"a\":1}");
    assert_eq!(decode_blob(&bytes, 0, JsonField::StateDiff), Ok(("{\"a\":1}".to_string(), 8)));
    let mut wrong = Vec::new();
    encode_blob("{\"a\":}", &mut wrong);
    assert_eq!(
        decode_blob(&wrong, 0, JsonField::StateDiff),
        Err(CodecError::InvalidJson(JsonField::StateDiff))
    );
    assert_eq!(
        decode_blob(&wrong, 0, JsonField::ContractClass),
        Err(CodecError::InvalidJson(JsonField::ContractClass))
    );
    assert_eq!(decode_blob(&bytes[..5], 0, JsonField::StateDiff), Err(CodecError::LengthOutOfBounds));
    assert_eq!(decode_blob(&[1 << 2, 0xff], 0, JsonField::StateDiff), Err(CodecError::InvalidUtf8));
    assert!(json_is_valid(" [1, 2] "));
    assert!(!json_is_valid("[1, 2"));
}

#[test]
fn entry_points_from_the_parts_of_compiled_ones() {
    let entry = EntryPoint::from_casm_parts(&[0x01, 0x02], 7).unwrap();
    assert_eq!(entry.selector.0, StarkFelt::from(0x0102_u16));
    assert_eq!(entry.offset, EntryPointOffset(7));
    assert_eq!(EntryPoint::from_casm_parts(&[], 0).unwrap(), EntryPoint::default());
    let mut bytes = [0xffu8; 32];
    bytes[0] = 0x0f;
    assert_eq!(
        EntryPoint::from_casm_parts(&bytes, 1).unwrap().selector.0,
        StarkFelt { hi: (1 << 124) - 1, lo: u128::MAX }
    );
    bytes[0] = 0x10;
    assert_eq!(
        EntryPoint::from_casm_parts(&bytes, 1),
        Err(StarknetApiError::OutOfRange { string: format!("0x10{}", "f".repeat(62)) })
    );
    assert_eq!(
        EntryPoint::from_casm_parts(&[0x0a; 33], 1),
        Err(StarknetApiError::InnerDeserialization(InnerDeserializationError::BadInput {
            expected_byte_count: 32,
            string_found: format!("0x{}", "0a".repeat(33)),
        }))
    );
}

#[test]
fn errors_say_what_went_wrong() {
    assert_eq!(
        StarknetApiError::OutOfRange { string: "0x10".to_string() }.message(),
        "Out of range 0x10."
    );
    assert_eq!(
        StarknetApiError::ParseIntError(starknet_api::numeral::ParseIntError::InvalidDigit).message(),
        "invalid digit found in string"
    );
    assert_eq!(
        StarknetApiError::from(starknet_api::numeral::ParseIntError::Empty),
        StarknetApiError::ParseIntError(starknet_api::numeral::ParseIntError::Empty)
    );
    let inner = InnerDeserializationError::BadInput {
        expected_byte_count: 32,
        string_found: "0xabc".to_string(),
    };
    assert_eq!(inner.message(), "Bad input - expected #bytes: 32, string found: 0xabc.");
    assert_eq!(StarknetApiError::from(inner.clone()).message(), inner.message());
    assert_eq!(
        InnerDeserializationError::MissingPrefix { hex_str: "abc".to_string() }.message(),
        "Missing prefix 0x in abc"
    );
    assert_eq!(
        InnerDeserializationError::InvalidHex { hex_str: "0xg".to_string() }.message(),
        "Invalid hexadecimal text 0xg"
    );
    assert_eq!(decimal(0), "0");
    assert_eq!(decimal(1234567890), "1234567890");
    assert_eq!(decimal(u64::MAX), u64::MAX.to_string());
}

#[test]
fn felts_from_hexadecimal_texts() {
    assert_eq!(StarkFelt::try_from("0x7b"), Ok(StarkFelt::from(123_u8)));
    assert_eq!(StarkFelt::try_from("7B"), Ok(StarkFelt::from(123_u8)));
    assert_eq!(StarkFelt::try_from("0x0x7b"), Ok(StarkFelt::from(123_u8)));
    assert_eq!(StarkFelt::try_from(""), Ok(StarkFelt::default()));
    assert_eq!(StarkFelt::try_from("0x"), Ok(StarkFelt::default()));
    let text = format!("0x{}", "f".repeat(63));
    assert_eq!(
        StarkFelt::try_from(&text),
        Ok(StarkFelt { hi: (1 << 124) - 1, lo: u128::MAX })
    );
    let text = "0x0123456789abcdef0123456789abcdef0123456789abcdef0123456789abcdef";
    let felt = StarkFelt::try_from(text).unwrap();
    assert_eq!(felt.hi, 0x0123456789abcdef0123456789abcdef);
    assert_eq!(felt.lo, 0x0123456789abcdef0123456789abcdef);
    assert_eq!(felt.hex_text(), "0x123456789abcdef0123456789abcdef0123456789abcdef0123456789abcdef");
    assert_eq!(StarkFelt::try_from(&felt.hex_text()), Ok(felt));

    let out_of_range = format!("0x1{}", "0".repeat(63));
    assert_eq!(
        StarkFelt::try_from(&out_of_range),
        Err(StarknetApiError::OutOfRange { string: out_of_range.clone() })
    );
    let too_long = format!("0x{}", "0".repeat(65));
    assert_eq!(
        StarkFelt::try_from(&too_long),
        Err(StarknetApiError::InnerDeserialization(InnerDeserializationError::BadInput {
            expected_byte_count: 32,
            string_found: too_long.clone(),
        }))
    );
    for text in ["0xg", "x", "0x 1", "-1", "+1", "0xé"] {
        assert_eq!(
            StarkFelt::try_from(text),
            Err(StarknetApiError::InnerDeserialization(InnerDeserializationError::InvalidHex {
                hex_str: text.to_string(),
            }))
        );
    }
    assert_eq!(starknet_api::hash::hex_prefix_end(b"0x0x12"), 4);
    assert_eq!(starknet_api::hash::hex_prefix_end(b"00x12"), 0);
    assert_eq!(starknet_api::hash::hex_prefix_end(b"0x0"), 2);
}
