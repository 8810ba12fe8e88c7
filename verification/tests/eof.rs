use evm_loader::buffer::Buffer;
use evm_loader::eof::{Container, FunctionMetadata, SectionKind};

const BYTES_WITH_EMPTY_DATA: &[u8] = &[
    239u8, 0, 1, 1, 0, 12, 2, 0, 3, 0, 3, 0, 5, 0, 1, 3, 0, 0, 0, 0, 0, 0, 1, 2, 3, 0, 4, 1, 1, 0,
    1, 96, 66, 0, 96, 66, 96, 66, 0, 0,
];
const BYTES_WITH_DATA: &[u8] = &[
    239u8, 0, 1, 1, 0, 4, 2, 0, 1, 0, 3, 3, 0, 3, 0, 0, 0, 0, 1, 96, 66, 0, 1, 2, 3,
];

fn get_container_with_data() -> Container {
    Container {
        types: vec![FunctionMetadata {
            input: 0,
            output: 0,
            max_stack_height: 1,
        }],
        code: vec![Buffer::from_slice(&hex::decode("604200").unwrap())],
        data: Buffer::from_slice(&[0x01, 0x02, 0x03]),
    }
}

fn get_container_with_empty_data() -> Container {
    Container {
        types: vec![
            FunctionMetadata {
                input: 0,
                output: 0,
                max_stack_height: 1,
            },
            FunctionMetadata {
                input: 2,
                output: 3,
                max_stack_height: 4,
            },
            FunctionMetadata {
                input: 1,
                output: 1,
                max_stack_height: 1,
            },
        ],
        code: vec![
            Buffer::from_slice(&hex::decode("604200").unwrap()),
            Buffer::from_slice(&hex::decode("6042604200").unwrap()),
            Buffer::from_slice(&hex::decode("00").unwrap()),
        ],
        data: Buffer::empty(),
    }
}

#[test]
fn marshal_binary_with_empty_data() {
    let expected_bytes = Vec::from(BYTES_WITH_EMPTY_DATA);
    let container = get_container_with_empty_data();

    let bytes = container._marshal_binary().to_vec();

    assert_eq!(bytes.len(), expected_bytes.len());
    assert_eq!(bytes, expected_bytes);
}

#[test]
fn marshal_binary_with_data() {
    let expected_bytes = Vec::from(BYTES_WITH_DATA);
    let container = get_container_with_data();

    let bytes = container._marshal_binary().to_vec();

    assert_eq!(bytes.len(), expected_bytes.len());
    assert_eq!(bytes, expected_bytes);
}

#[test]
fn unmarshal_binary_with_data() {
    let bytes = Buffer::from_slice(BYTES_WITH_DATA);
    let expected_container = get_container_with_data();

    let container = Container::unmarshal_binary(&bytes).unwrap();

    assert_eq!(container, expected_container);
}

#[test]
fn unmarshal_binary_with_empty_data() {
    let bytes = Buffer::from_slice(BYTES_WITH_EMPTY_DATA);
    let expected_container = get_container_with_empty_data();

    let container = Container::unmarshal_binary(&bytes).unwrap();

    assert_eq!(container, expected_container);
}

#[test]
#[should_panic(expected = "InvalidMagic")]
fn unmarshal_binary_without_magic() {
    let bytes = Buffer::from_slice(&BYTES_WITH_EMPTY_DATA[2..]);

    Container::unmarshal_binary(&bytes).unwrap();
}

#[test]
#[should_panic(expected = "UnexpectedEndOfFile")]
fn unmarshal_binary_when_lenght_is_less_than_14() {
    let bytes = Buffer::from_slice(&BYTES_WITH_EMPTY_DATA[..6]);

    Container::unmarshal_binary(&bytes).unwrap();
}

#[test]
#[should_panic(expected = "InvalidVersion")]
fn unmarshal_binary_with_invalid_version() {
    let mut bytes = Vec::from(BYTES_WITH_DATA);

    bytes[2] = 100;

    let bytes = Buffer::from_slice(&bytes);

    Container::unmarshal_binary(&bytes).unwrap();
}

#[test]
#[should_panic(expected = "UnknownSectionHeader(15)")]
fn unmarshal_binary_with_unknown_section_header_for_type_section() {
    let mut bytes = Vec::from(BYTES_WITH_DATA);
    // type section kind
    bytes[3] = 15;

    let bytes = Buffer::from_slice(&bytes);

    Container::unmarshal_binary(&bytes).unwrap();
}

#[test]
#[should_panic(expected = "MissingSectionHeader(1, 3)")]
fn unmarshal_binary_with_wrong_section_header_for_type_section() {
    let mut bytes = Vec::from(BYTES_WITH_DATA);
    // type section kind
    bytes[3] = SectionKind::Data.to_u8();

    let bytes = Buffer::from_slice(&bytes);

    Container::unmarshal_binary(&bytes).unwrap();
}

#[test]
#[should_panic(expected = "InvalidTypeSizeMustBeDivisibleBy4(25)")]
fn unmarshal_binary_with_invalid_types_size_must_be_divisible_by_4() {
    let mut bytes = Vec::from(BYTES_WITH_DATA);

    let new_size = 25u16.to_be_bytes();

    // type section size bytes
    bytes[4] = new_size[0];
    bytes[5] = new_size[1];

    let bytes = Buffer::from_slice(&bytes);

    Container::unmarshal_binary(&bytes).unwrap();
}

#[test]
#[should_panic(expected = "InvalidTypeSizeExceed(5120)")]
fn unmarshal_binary_with_invalid_type_size_exceed() {
    let mut bytes = Vec::from(BYTES_WITH_DATA);

    let new_size = (1024u16 * 5).to_be_bytes();
    // type section size bytes
    bytes[4] = new_size[0];
    bytes[5] = new_size[1];

    let bytes = Buffer::from_slice(&bytes);

    Container::unmarshal_binary(&bytes).unwrap();
}

#[test]
#[should_panic(expected = "MismatchCodeSize(514, 1)")]
fn unmarshal_binary_with_mismatched_code_size() {
    let mut bytes = Vec::from(BYTES_WITH_DATA);
    let new_size = (513u16 * 4 + 4).to_be_bytes();

    // type section size bytes
    bytes[4] = new_size[0];
    bytes[5] = new_size[1];

    let bytes = Buffer::from_slice(&bytes);

    Container::unmarshal_binary(&bytes).unwrap();
}

#[test]
#[should_panic(expected = "MissingTerminator(1)")]
fn unmarshal_binary_with_missing_terminator() {
    let mut bytes = Vec::from(BYTES_WITH_DATA);

    // terminator
    bytes[14] = 1;

    let bytes = Buffer::from_slice(&bytes);

    Container::unmarshal_binary(&bytes).unwrap();
}

#[test]
#[should_panic(expected = "InvalidContainerSize(26, 25)")]
fn unmarshal_binary_with_invalid_container_size() {
    let bytes = Buffer::from_slice(&[BYTES_WITH_DATA, &[5u8]].concat());

    Container::unmarshal_binary(&bytes).unwrap();
}

#[test]
fn marshal_then_unmarshal_gives_the_container_back() {
    let container = get_container_with_empty_data();
    let bytes = container._marshal_binary();
    assert_eq!(Container::unmarshal_binary(&bytes).unwrap(), container);
}

#[test]
fn unmarshal_then_marshal_gives_the_bytes_back() {
    let bytes = Buffer::from_slice(BYTES_WITH_DATA);
    let container = Container::unmarshal_binary(&bytes).unwrap();
    assert_eq!(container._marshal_binary().to_vec(), BYTES_WITH_DATA.to_vec());
}

#[test]
fn function_metadata_limits() {
    let ok = FunctionMetadata { input: 0, output: 0, max_stack_height: 1 };
    assert!(ok.assert_valid(0).is_ok());
    let bad_inputs = FunctionMetadata { input: 128, output: 0, max_stack_height: 1 };
    assert_eq!(format!("{:?}", bad_inputs.assert_valid(2)), "Err(TooManyInputs(2, 128))");
    let bad_outputs = FunctionMetadata { input: 0, output: 128, max_stack_height: 1 };
    assert_eq!(format!("{:?}", bad_outputs.assert_valid(1)), "Err(TooManyOutputs(1, 0))");
    let bad_height = FunctionMetadata { input: 0, output: 0, max_stack_height: 1024 };
    assert_eq!(format!("{:?}", bad_height.assert_valid(3)), "Err(TooLargeMaxStackHeight(3, 0))");
    assert_eq!(ok._to_bytes(), vec![0, 0, 0, 1]);
}

#[test]
fn section_kind_bytes() {
    assert_eq!(SectionKind::Type.to_u8(), 1);
    assert_eq!(SectionKind::Code.to_u8(), 2);
    assert_eq!(SectionKind::Data.to_u8(), 3);
    assert_eq!(SectionKind::try_from(2).unwrap(), SectionKind::Code);
    assert_eq!(format!("{:?}", SectionKind::try_from(7)), "Err(UnknownSectionHeader(7))");
    assert!(SectionKind::Type.assert_kind(SectionKind::Type).is_ok());
    assert_eq!(
        format!("{:?}", SectionKind::Type.assert_kind(SectionKind::Code)),
        "Err(MissingSectionHeader(2, 1))"
    );
}

#[test]
fn unmarshal_binary_with_sizes_past_u16_is_refused() {
    let mut bytes = Vec::from(BYTES_WITH_DATA);
    bytes[9] = 0xff;
    bytes[10] = 0xff;
    bytes[12] = 0xff;
    bytes[13] = 0xff;
    let result = Container::unmarshal_binary(&Buffer::from_slice(&bytes));
    assert_eq!(
        format!("{:?}", result.err()),
        "Some(InvalidContainerSize(25, 131089))"
    );
}
