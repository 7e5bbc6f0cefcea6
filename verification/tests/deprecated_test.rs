use starknet_api::api_core::EntryPointSelector;
use starknet_api::codec::{CodecError, JsonField};
use starknet_api::deprecated_contract_class::{
    hex_string_try_into_u64, number_or_string, u64_to_hex, ContractClass, ContractClassAbiEntry,
    EntryPoint, EntryPointOffset, EntryPointType, EventAbiEntry, FunctionAbiEntry,
    FunctionStateMutability, OffsetError, Program, StructAbiEntry, StructMember, TypedParameter,
};
use starknet_api::hash::StarkFelt;
use starknet_api::json::JsonScalar;
use starknet_api::numeral::ParseIntError;
use starknet_api::ordered_map::OrderedMap;
use starknet_api::StarknetApiError;

const PROGRAM: &str = r#"{
    "prime": "0x800000000000011000000000000000000000000000000000000000000000001",
    "data": ["0x40780017fff7fff", "0x1", "0x208b7fff7fff7ffe"],
    "builtins": ["pedersen", "range_check"],
    "hints": {"0": [{"code": "memory[ap] = 1", "flow_tracking_data": null}]},
    "identifiers": {"__main__.main": {"pc": 0, "type": "function"}},
    "main_scope": "__main__",
    "reference_manager": {"references": []},
    "debug_info": null
}"#;

#[test]
fn state_test_entry_point_offset_from_json_str() {
    let data = r#"
        {
            "offset_1":  2,
            "offset_2": "0x7b"
        }"#;
    let offsets: serde_json::Value = serde_json::from_str(data).unwrap();

    assert_eq!(
        EntryPointOffset(2),
        EntryPointOffset::from_json(&offsets["offset_1"].to_string()).unwrap()
    );
    assert_eq!(
        EntryPointOffset(123),
        EntryPointOffset::from_json(&offsets["offset_2"].to_string()).unwrap()
    );
}

#[test]
fn state_test_entry_point_offset_into_json_str() {
    let offset = EntryPointOffset(123);
    assert_eq!(
        serde_json::from_str::<serde_json::Value>(&offset.to_json()).unwrap(),
        serde_json::Value::String(format!("{:#x}", offset.0))
    );
}

#[test]
fn offset_json_is_always_the_hex_text() {
    assert_eq!(EntryPointOffset(123).to_json(), "\"0x7b\"");
    assert_eq!(EntryPointOffset(0).to_json(), "\"0x0\"");
    assert_eq!(EntryPointOffset::from_json("2").map(|offset| offset.to_json()).unwrap(), "\"0x2\"");
    for value in [0, 1, 15, 16, 255, 256, 0xdead_beef, u64::MAX] {
        assert_eq!(u64_to_hex(value), format!("{:#x}", value));
        assert_eq!(hex_string_try_into_u64(&u64_to_hex(value)), Ok(value));
        let offset = EntryPointOffset(value);
        assert_eq!(EntryPointOffset::from_json(&offset.to_json()), Ok(offset));
    }
}

#[test]
fn offset_json_names_what_is_wrong() {
    assert_eq!(EntryPointOffset::from_json("{"), Err(OffsetError::InvalidJson));
    assert_eq!(EntryPointOffset::from_json("-1"), Err(OffsetError::NumberOutOfRange));
    assert_eq!(EntryPointOffset::from_json("1.5"), Err(OffsetError::NumberOutOfRange));
    assert_eq!(EntryPointOffset::from_json("18446744073709551616"), Err(OffsetError::NumberOutOfRange));
    assert_eq!(EntryPointOffset::from_json("18446744073709551615"), Ok(EntryPointOffset(u64::MAX)));
    assert_eq!(EntryPointOffset::from_json("null"), Err(OffsetError::NeitherNumberNorText));
    assert_eq!(EntryPointOffset::from_json("[1]"), Err(OffsetError::NeitherNumberNorText));
    assert_eq!(EntryPointOffset::from_json("true"), Err(OffsetError::NeitherNumberNorText));
    assert_eq!(
        EntryPointOffset::from_json("\"0xg\""),
        Err(OffsetError::InvalidHex(ParseIntError::InvalidDigit))
    );
    assert_eq!(
        EntryPointOffset::from_json("\"\""),
        Err(OffsetError::InvalidHex(ParseIntError::Empty))
    );
    assert_eq!(number_or_string(&JsonScalar::Number(Some(7))), Ok(7));
    assert_eq!(number_or_string(&JsonScalar::Number(None)), Err(OffsetError::NumberOutOfRange));
    assert_eq!(number_or_string(&JsonScalar::Text("7b".to_string())), Ok(123));
    assert_eq!(number_or_string(&JsonScalar::Other), Err(OffsetError::NeitherNumberNorText));
}

#[test]
fn hex_texts_are_read_as_the_standard_library_reads_them() {
    let texts = [
        "", "0x", "0x0x", "0x0x7b", "7b", "7B", "0x7b", "+7b", "+", "-", "-7b", "0x+7b", "0x-1", "x7b",
        "7b0x", " 7b", "0xffffffffffffffff", "0x10000000000000000", "00000000000000000000007b",
        "ffffffffffffffffz", "fffffffffffffffffz", "0xzfffffffffffffffff", "é", "0xé", "00x1", "0X1",
    ];
    for text in texts {
        let expected = u64::from_str_radix(text.trim_start_matches("0x"), 16).map_err(|e| {
            match e.kind() {
                std::num::IntErrorKind::Empty => ParseIntError::Empty,
                std::num::IntErrorKind::InvalidDigit => ParseIntError::InvalidDigit,
                std::num::IntErrorKind::PosOverflow => ParseIntError::PosOverflow,
                other => panic!("{:?}", other),
            }
        });
        assert_eq!(hex_string_try_into_u64(text), expected, "{:?}", text);
    }
    assert_eq!(hex_string_try_into_u64("0x7b"), Ok(123));
    assert_eq!(hex_string_try_into_u64(""), Err(ParseIntError::Empty));
    assert_eq!(hex_string_try_into_u64("0x"), Err(ParseIntError::Empty));
    assert_eq!(hex_string_try_into_u64("0xg"), Err(ParseIntError::InvalidDigit));
    assert_eq!(hex_string_try_into_u64("0x10000000000000000"), Err(ParseIntError::PosOverflow));
    assert_eq!(ParseIntError::Empty.message(), "cannot parse integer from empty string");
    assert_eq!(ParseIntError::InvalidDigit.message(), "invalid digit found in string");
    assert_eq!(ParseIntError::PosOverflow.message(), "number too large to fit in target type");
}

#[test]
fn offset_from_a_text() {
    assert_eq!(EntryPointOffset::try_from("0x7b".to_string()), Ok(EntryPointOffset(123)));
    assert_eq!(
        EntryPointOffset::try_from("7z".to_string()),
        Err(StarknetApiError::ParseIntError(ParseIntError::InvalidDigit))
    );
}

fn parameter(name: &str, ty: &str) -> TypedParameter {
    TypedParameter { name: name.to_string(), ty: ty.to_string() }
}

fn sample_class() -> ContractClass {
    let abi = vec![
        ContractClassAbiEntry::Event(EventAbiEntry {
            name: "Transfer".to_string(),
            keys: vec![parameter("from", "felt")],
            data: vec![parameter("amount", "Uint256")],
        }),
        ContractClassAbiEntry::Function(FunctionAbiEntry {
            name: "balance_of".to_string(),
            inputs: vec![parameter("owner", "felt")],
            outputs: vec![parameter("balance", "Uint256")],
            state_mutability: Some(FunctionStateMutability::View),
        }),
        ContractClassAbiEntry::Constructor(FunctionAbiEntry {
            name: "constructor".to_string(),
            inputs: vec![],
            outputs: vec![],
            state_mutability: None,
        }),
        ContractClassAbiEntry::L1Handler(FunctionAbiEntry {
            name: "deposit".to_string(),
            inputs: vec![parameter("from_address", "felt")],
            outputs: vec![],
            state_mutability: None,
        }),
        ContractClassAbiEntry::Struct(StructAbiEntry {
            name: "Uint256".to_string(),
            size: 2,
            members: vec![
                StructMember { param: parameter("low", "felt"), offset: 0 },
                StructMember { param: parameter("high", "felt"), offset: 1 },
            ],
        }),
    ];
    let mut entry_points_by_type = OrderedMap::new();
    entry_points_by_type.insert(
        EntryPointType::L1Handler,
        vec![EntryPoint {
            selector: EntryPointSelector(StarkFelt::from(7_u8)),
            offset: EntryPointOffset(0x7b),
        }],
    );
    entry_points_by_type.insert(EntryPointType::Constructor, vec![]);
    entry_points_by_type.insert(
        EntryPointType::External,
        vec![
            EntryPoint {
                selector: EntryPointSelector(StarkFelt::from(u128::MAX)),
                offset: EntryPointOffset(u64::MAX),
            },
            EntryPoint::default(),
        ],
    );
    ContractClass {
        abi: Some(abi),
        program: Program::from_json(PROGRAM).unwrap(),
        entry_points_by_type,
    }
}

#[test]
fn legacy_class_round_trip() {
    let class = sample_class();
    let encoded = class.encode();
    let mut input = &encoded[..];
    let decoded = ContractClass::decode(&mut input).unwrap();
    assert!(input.is_empty());
    assert_eq!(decoded, class);
    assert_eq!(
        decoded.entry_points_by_type.keys(),
        vec![EntryPointType::L1Handler, EntryPointType::Constructor, EntryPointType::External]
    );
    assert_eq!(decoded.encode(), encoded);

    let without_abi = ContractClass { abi: None, ..sample_class() };
    let encoded = without_abi.encode();
    assert_eq!(encoded[0], 0);
    assert_eq!(ContractClass::decode(&mut &encoded[..]).unwrap(), without_abi);
}

#[test]
fn legacy_class_wire_layout() {
    let mut entry_points_by_type = OrderedMap::new();
    entry_points_by_type.insert(
        EntryPointType::External,
        vec![EntryPoint {
            selector: EntryPointSelector(StarkFelt::from(1_u8)),
            offset: EntryPointOffset(0x0102),
        }],
    );
    let program = Program::from_json(PROGRAM).unwrap();
    let class = ContractClass { abi: Some(vec![]), program, entry_points_by_type };
    let text = class.program.to_json();
    let encoded = class.encode();
    let mut expected = vec![1, 0];
    expected.extend(starknet_api::compact::compact_bytes(text.len() as u64));
    expected.extend(text.as_bytes());
    expected.extend([1 << 2, 1, 1 << 2]);
    expected.extend([0u8; 31]);
    expected.extend([1, 2, 1, 0, 0, 0, 0, 0, 0]);
    assert_eq!(encoded, expected);
}

#[test]
fn program_is_kept_as_serde_json_writes_it() {
    let program = Program::from_json(PROGRAM).unwrap();
    let value: serde_json::Value = serde_json::from_str(PROGRAM).unwrap();
    assert_eq!(program.to_json(), value.to_string());
    assert_eq!(Program::from_json(&program.to_json()).unwrap(), program);
    assert_eq!(program.member("main_scope"), Some("\"__main__\"".to_string()));
    assert_eq!(program.member("builtins"), Some("[\"pedersen\",\"range_check\"]".to_string()));
    assert_eq!(program.member("debug_info"), Some("null".to_string()));
    assert_eq!(program.member("attributes"), None);
    assert_eq!(program.clone(), program);
}

#[test]
fn program_json_names_the_offending_field() {
    assert_eq!(Program::from_json("{"), Err(CodecError::InvalidJson(JsonField::Program)));
    assert_eq!(Program::from_json(""), Err(CodecError::InvalidJson(JsonField::Program)));
    assert_eq!(Program::from_json("[]"), Err(CodecError::InvalidJson(JsonField::Builtins)));
    let fields = [
        ("builtins", JsonField::Builtins),
        ("data", JsonField::Data),
        ("hints", JsonField::Hints),
        ("identifiers", JsonField::Identifiers),
        ("main_scope", JsonField::MainScope),
        ("prime", JsonField::Prime),
        ("reference_manager", JsonField::ReferenceManager),
    ];
    for (name, field) in fields {
        let mut value: serde_json::Value = serde_json::from_str(PROGRAM).unwrap();
        value.as_object_mut().unwrap().remove(name);
        assert_eq!(Program::from_json(&value.to_string()), Err(CodecError::InvalidJson(field)));
    }
    let mut value: serde_json::Value = serde_json::from_str(PROGRAM).unwrap();
    value.as_object_mut().unwrap().remove("debug_info");
    assert!(Program::from_json(&value.to_string()).is_ok());
}

#[test]
fn legacy_class_decoding_names_the_failure() {
    let class = sample_class();
    let encoded = class.encode();
    for cut in 0..encoded.len() {
        assert!(ContractClass::decode(&mut &encoded[..cut]).is_err());
    }
    let mut wrong_option = encoded.clone();
    wrong_option[0] = 2;
    assert_eq!(ContractClass::decode(&mut &wrong_option[..]), Err(CodecError::InvalidDiscriminant));
    let mut wrong_entry = encoded.clone();
    wrong_entry[2] = 5;
    assert_eq!(ContractClass::decode(&mut &wrong_entry[..]), Err(CodecError::InvalidDiscriminant));

    let no_json = vec![0, 2 << 2, b'{', b'x', 0];
    assert_eq!(
        ContractClass::decode(&mut &no_json[..]),
        Err(CodecError::InvalidJson(JsonField::Program))
    );
    let no_members = vec![0, 2 << 2, b'{', b'}', 0];
    assert_eq!(
        ContractClass::decode(&mut &no_members[..]),
        Err(CodecError::InvalidJson(JsonField::Builtins))
    );
    let no_text = vec![0, 2 << 2, 0xff, 0xfe, 0];
    assert_eq!(ContractClass::decode(&mut &no_text[..]), Err(CodecError::InvalidUtf8));
}

#[test]
fn kinds_are_spelled_for_other_tools() {
    assert_eq!(FunctionStateMutability::default().name(), "view");
    let class = sample_class();
    let names: Vec<&str> = class.abi.unwrap().iter().map(|entry| entry.kind_name()).collect();
    assert_eq!(names, vec!["event", "function", "constructor", "l1_handler", "struct"]);
}
