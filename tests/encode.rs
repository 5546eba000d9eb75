use forc_encode::{AbiFunction, CallError, IntErrorKind, ScriptCallHandler, Token, Type};
use forc_encode::schema::{graph_is_sound, TypeGraph, TypeNode};

const TEST_JSON_ABI: &str = r#"{"types":[{"typeId":0,"type":"()","components":[],"typeParameters":null},
{"typeId":1,"type":"bool","components":null,"typeParameters":null},{"typeId":2,"type":"u8","components":null,
"typeParameters":null}],"functions":[{"inputs":[{"name":"test_u8","type":2,"typeArguments":null},{"name":"test_bool",
"type":1,"typeArguments":null}],"name":"main","output":{"name":"","type":0,"typeArguments":null},"attributes":null}],
"loggedTypes":[],"messagesTypes":[],"configurables":[]}"#;

#[test]
fn test_script_call_handler_generation_success() {
    let generated_call_handler = ScriptCallHandler::from_json_abi_str(TEST_JSON_ABI).unwrap();

    let expected_call_handler = ScriptCallHandler::new(vec![Type::U8, Type::Bool]);

    assert_eq!(generated_call_handler, expected_call_handler);
}

#[test]
#[should_panic]
fn test_script_call_handler_generation_fail_missing_main() {
    let test_json_abi =
        r#"{"types":[],"functions":[],"loggedTypes":[],"messagesTypes":[],"configurables":[]}"#;
    ScriptCallHandler::from_json_abi_str(test_json_abi).unwrap();
}

#[test]
fn test_main_encoding_success() {
    let call_handler = ScriptCallHandler::from_json_abi_str(TEST_JSON_ABI).unwrap();
    let values = ["2", "true"];

    let test_data_offset = 0;
    let encoded_bytes = call_handler
        .encode_arguments(&values)
        .unwrap()
        .resolve(test_data_offset);
    let expected_bytes = vec![
        0u8, 0u8, 0u8, 0u8, 0u8, 0u8, 0u8, 2u8, 0u8, 0u8, 0u8, 0u8, 0u8, 0u8, 0u8, 1u8,
    ];
    assert_eq!(encoded_bytes, expected_bytes);
}

#[test]
#[should_panic]
fn test_main_encoding_fail_arg_type_mismatch() {
    let call_handler = ScriptCallHandler::from_json_abi_str(TEST_JSON_ABI).unwrap();
    // main(test_u8: u8, test_bool: bool): a bool for the u8 parameter fails.
    let values = ["true", "2"];
    call_handler.encode_arguments(&values).unwrap();
}

#[test]
#[should_panic(expected = "main function takes 2 arguments, 1 provided")]
fn test_main_encoding_fail_arg_count_mismatch() {
    let call_handler = ScriptCallHandler::from_json_abi_str(TEST_JSON_ABI).unwrap();
    // main takes two arguments; one value is given.
    let values = ["true"];
    if let Err(e) = call_handler.encode_arguments(&values) {
        panic!("{}", e.message());
    }
}

#[test]
fn test_token_generation_success() {
    let u8_token = Token::from_type_and_value(&Type::U8, "1").unwrap();
    let u16_token = Token::from_type_and_value(&Type::U16, "1").unwrap();
    let u32_token = Token::from_type_and_value(&Type::U32, "1").unwrap();
    let u64_token = Token::from_type_and_value(&Type::U64, "1").unwrap();
    let bool_token = Token::from_type_and_value(&Type::Bool, "true").unwrap();

    let generated_tokens = [u8_token, u16_token, u32_token, u64_token, bool_token];
    let expected_tokens = [
        Token::U8(1),
        Token::U16(1),
        Token::U32(1),
        Token::U64(1),
        Token::Bool(true),
    ];

    assert_eq!(generated_tokens, expected_tokens)
}

#[test]
#[should_panic]
fn test_token_generation_fail_type_mismatch() {
    Token::from_type_and_value(&Type::U8, "false").unwrap();
}

#[test]
fn test_type_generation_success() {
    let possible_type_list = ["()", "u8", "u16", "u32", "u64", "bool"];
    let types = possible_type_list
        .iter()
        .map(|type_str| Type::from_str(type_str))
        .collect::<Result<Vec<_>, _>>()
        .unwrap();

    let expected_types = vec![
        Type::Unit,
        Type::U8,
        Type::U16,
        Type::U32,
        Type::U64,
        Type::Bool,
    ];
    assert_eq!(types, expected_types)
}

#[test]
#[should_panic(expected = "u2 type is not supported.")]
fn test_type_generation_fail_invalid_type() {
    let invalid_type_str = "u2";
    if let Err(e) = Type::from_str(invalid_type_str) {
        panic!("{}", e.message());
    }
}

#[test]
fn count_mismatch_wins_over_bad_values() {
    let handler = ScriptCallHandler::new(vec![Type::U8, Type::Bool]);
    let err = handler.encode_arguments(&["x", "y", "z"]).unwrap_err();
    assert_eq!(err, CallError::ArgCount { expected: 2, provided: 3 });
    assert_eq!(err.message(), "main function takes 2 arguments, 3 provided");
    let err = handler.encode_arguments(&[]).unwrap_err();
    assert_eq!(err.message(), "main function takes 2 arguments, 0 provided");
}

#[test]
fn scalars_round_trip() {
    let cases = [
        (Type::U8, "0"),
        (Type::U8, "255"),
        (Type::U16, "65535"),
        (Type::U32, "4294967295"),
        (Type::U64, "18446744073709551615"),
        (Type::U64, "1234567"),
        (Type::Bool, "true"),
        (Type::Bool, "false"),
    ];
    for (ty, text) in cases {
        let token = Token::from_type_and_value(&ty, text).unwrap();
        assert_eq!(token.to_text(), text);
    }
}

#[test]
fn word_layout_of_each_width() {
    let handler = ScriptCallHandler::new(vec![Type::U16, Type::U32, Type::U64, Type::Unit]);
    let bytes = handler
        .encode_arguments(&["258", "16909060", "72623859790382856", "anything"])
        .unwrap()
        .resolve(1000);
    let expected = vec![
        0, 0, 0, 0, 0, 0, 1, 2, 0, 0, 0, 0, 1, 2, 3, 4, 1, 2, 3, 4, 5, 6, 7, 8,
    ];
    assert_eq!(bytes, expected);
}

#[test]
fn value_type_mismatch_is_rejected() {
    let handler = ScriptCallHandler::new(vec![Type::U8, Type::Bool]);
    let err = handler.encode_arguments(&["true", "2"]).unwrap_err();
    assert_eq!(err, CallError::InvalidInteger(IntErrorKind::InvalidDigit));
    let err = handler.encode_arguments(&["2", "2"]).unwrap_err();
    assert_eq!(err, CallError::InvalidBool);
    assert_eq!(err.message(), "provided string was not `true` or `false`");
}

#[test]
fn integer_text_errors() {
    let e = |t: Type, s: &str| Token::from_type_and_value(&t, s).unwrap_err();
    assert_eq!(e(Type::U8, ""), CallError::InvalidInteger(IntErrorKind::Empty));
    assert_eq!(e(Type::U8, "256"), CallError::InvalidInteger(IntErrorKind::PosOverflow));
    assert_eq!(e(Type::U8, "-1"), CallError::InvalidInteger(IntErrorKind::InvalidDigit));
    assert_eq!(e(Type::U8, "+"), CallError::InvalidInteger(IntErrorKind::InvalidDigit));
    assert_eq!(e(Type::U16, "1a"), CallError::InvalidInteger(IntErrorKind::InvalidDigit));
    assert_eq!(e(Type::U16, " 1"), CallError::InvalidInteger(IntErrorKind::InvalidDigit));
    assert_eq!(e(Type::U64, "18446744073709551616"), CallError::InvalidInteger(IntErrorKind::PosOverflow));
    assert_eq!(Token::from_type_and_value(&Type::U8, "+7").unwrap(), Token::U8(7));
    assert_eq!(Token::from_type_and_value(&Type::U32, "007").unwrap(), Token::U32(7));
    assert_eq!(e(Type::Bool, "True"), CallError::InvalidBool);
}

#[test]
fn unsupported_types_are_rejected() {
    let cases = [
        (Type::Array, "Array is not supported."),
        (Type::Vector, "Vector is not supported."),
        (Type::String, "String is not supported."),
        (Type::Struct, "Struct is not supported."),
        (Type::Enum, "Enum is not supported."),
        (Type::Tuple, "Tuple is not supported."),
        (Type::RawSlice, "RawSlice is not supported."),
        (Type::B256, "B256 is not supported."),
        (Type::Byte, "Byte is not supported."),
    ];
    for (ty, msg) in cases {
        let err = Token::from_type_and_value(&ty, "1").unwrap_err();
        assert_eq!(err, CallError::UnsupportedType(ty));
        assert_eq!(err.message(), msg);
    }
}

#[test]
fn empty_functions_have_no_entry_point() {
    let abi = r#"{"types":[],"functions":[],"loggedTypes":[],"messagesTypes":[],"configurables":[]}"#;
    let err = ScriptCallHandler::from_json_abi_str(abi).unwrap_err();
    assert_eq!(err, CallError::MissingMain);
    assert_eq!(ScriptCallHandler::from_abi_functions(&vec![]).unwrap_err(), CallError::MissingMain);
}

#[test]
fn malformed_document_is_a_schema_error() {
    let err = ScriptCallHandler::from_json_abi_str("{not json").unwrap_err();
    assert!(matches!(err, CallError::Schema(_)));
}

#[test]
fn unsupported_parameter_type_name() {
    let abi = r#"{"types":[{"typeId":0,"type":"()","components":[],"typeParameters":null},
{"typeId":1,"type":"u128","components":null,"typeParameters":null}],"functions":[{"inputs":[{"name":"x","type":1,"typeArguments":null}],
"name":"main","output":{"name":"","type":0,"typeArguments":null},"attributes":null}],
"loggedTypes":[],"messagesTypes":[],"configurables":[]}"#;
    let err = ScriptCallHandler::from_json_abi_str(abi).unwrap_err();
    assert_eq!(err, CallError::UnsupportedTypeName("u128".to_string()));
    assert_eq!(err.message(), "u128 type is not supported.");
}

#[test]
fn first_main_is_used() {
    let f = |name: &str, inputs: &[&str]| AbiFunction {
        name: name.to_string(),
        input_types: inputs.iter().map(|s| s.to_string()).collect(),
    };
    let fs = vec![f("other", &["b256"]), f("main", &["u64", "()"]), f("main", &["bool"])];
    let handler = ScriptCallHandler::from_abi_functions(&fs).unwrap();
    assert_eq!(handler.main_arg_types(), &vec![Type::U64, Type::Unit]);
}

#[test]
fn undeclared_type_id_is_a_schema_error() {
    let abi = r#"{"types":[{"typeId":0,"type":"()","components":[],"typeParameters":null}],
"functions":[{"inputs":[{"name":"x","type":7,"typeArguments":null}],
"name":"main","output":{"name":"","type":0,"typeArguments":null},"attributes":null}],
"loggedTypes":[],"messagesTypes":[],"configurables":[]}"#;
    let err = ScriptCallHandler::from_json_abi_str(abi).unwrap_err();
    assert!(matches!(err, CallError::Schema(_)));
}

#[test]
fn self_referring_type_is_a_schema_error() {
    let abi = r#"{"types":[{"typeId":0,"type":"()","components":[],"typeParameters":null},
{"typeId":1,"type":"struct S","components":[{"name":"s","type":1,"typeArguments":null}],"typeParameters":null}],
"functions":[{"inputs":[],"name":"main","output":{"name":"","type":0,"typeArguments":null},"attributes":null}],
"loggedTypes":[],"messagesTypes":[],"configurables":[]}"#;
    let err = ScriptCallHandler::from_json_abi_str(abi).unwrap_err();
    assert!(matches!(err, CallError::Schema(_)));
}

#[test]
fn type_graph_soundness() {
    let node = |type_id: usize, refs: Vec<usize>| TypeNode { type_id, refs };
    let chain = TypeGraph { types: vec![node(0, vec![1]), node(1, vec![2]), node(2, vec![])], uses: vec![0] };
    assert!(graph_is_sound(&chain));
    let cycle = TypeGraph { types: vec![node(0, vec![1]), node(1, vec![0])], uses: vec![] };
    assert!(!graph_is_sound(&cycle));
    let missing = TypeGraph { types: vec![node(0, vec![])], uses: vec![3] };
    assert!(!graph_is_sound(&missing));
}

#[test]
fn accepted_integer_text_shows_in_shortest_form() {
    let cases = [
        (Type::U8, "007", "7"),
        (Type::U16, "+0042", "42"),
        (Type::U32, "000", "0"),
        (Type::U64, "+0", "0"),
        (Type::U8, "+255", "255"),
    ];
    for (ty, text, shown) in cases {
        let token = Token::from_type_and_value(&ty, text).unwrap();
        assert_eq!(token.to_text(), shown);
    }
    assert_eq!(Token::from_type_and_value(&Type::U8, "007").unwrap(), Token::U8(7));
}
