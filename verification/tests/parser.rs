use wasm::parser::{parse_bytes, DecodeError, DecodeErrorKind, Parser};
use wasm::repr::{ExportDesc, FuncIdx, Inst, IntBinop, LocalIdx, TypeIdx, ValType};

const EMPTY_MOD: [u8; 8] = [0x00, 0x61, 0x73, 0x6d, 0x01, 0x00, 0x00, 0x00];

const ADD_MOD: [u8; 41] = [
    0x00, 0x61, 0x73, 0x6d, 0x01, 0x00, 0x00, 0x00, //
    0x01, 0x07, 0x01, 0x60, 0x02, 0x7f, 0x7f, 0x01, 0x7f, //
    0x03, 0x02, 0x01, 0x00, //
    0x07, 0x07, 0x01, 0x03, 0x61, 0x64, 0x64, 0x00, 0x00, //
    0x0a, 0x09, 0x01, 0x07, 0x00, 0x20, 0x00, 0x20, 0x01, 0x6a, 0x0b,
];

#[test]
fn parse_empty() {
    parse_bytes(&EMPTY_MOD).expect("could not parse empty module");
}

#[test]
fn parse_add() {
    parse_bytes(&ADD_MOD).expect("could not parse add module");
}

#[test]
fn add_module_has_one_function() {
    let module = parse_bytes(&ADD_MOD).unwrap();
    assert_eq!(module.types.len(), 1);
    assert_eq!(module.types[0].from.types, vec![ValType::I32, ValType::I32]);
    assert_eq!(module.types[0].to.types, vec![ValType::I32]);
    assert_eq!(module.funcs.len(), 1);
    assert_eq!(module.funcs[0].typ, TypeIdx(0));
    assert!(matches!(
        module.funcs[0].body.as_slice(),
        [
            Inst::LocalGet(LocalIdx(0)),
            Inst::LocalGet(LocalIdx(1)),
            Inst::I32Binary(IntBinop::Add)
        ]
    ));
    assert_eq!(module.exports[0].name, "add");
    assert_eq!(module.exports[0].desc, ExportDesc::Func(FuncIdx(0)));
}

fn error(bytes: &[u8]) -> DecodeError {
    parse_bytes(bytes).expect_err("the bytes are no module")
}

#[test]
fn preamble_is_checked() {
    assert_eq!(error(&[0x00, 0x61]), DecodeError { kind: DecodeErrorKind::UnexpectedEof, offset: 2 });
    assert_eq!(
        error(&[0x00, 0x61, 0x73, 0x6e, 1, 0, 0, 0]),
        DecodeError { kind: DecodeErrorKind::InvalidMagic, offset: 0 }
    );
    assert_eq!(
        error(&[0x00, 0x61, 0x73, 0x6d, 2, 0, 0, 0]),
        DecodeError { kind: DecodeErrorKind::InvalidVersion, offset: 4 }
    );
}

#[test]
fn sections_are_checked() {
    let mut bytes = EMPTY_MOD.to_vec();
    bytes.extend([13, 0]);
    assert_eq!(error(&bytes), DecodeError { kind: DecodeErrorKind::InvalidSectionId(13), offset: 8 });

    let mut bytes = EMPTY_MOD.to_vec();
    bytes.extend([0x01, 0x05, 0x01, 0x60, 0x00, 0x00]);
    assert_eq!(error(&bytes), DecodeError { kind: DecodeErrorKind::SizeMismatch, offset: 10 });

    let mut bytes = EMPTY_MOD.to_vec();
    bytes.extend([0x01, 0x04, 0x01, 0x60, 0x01, 0x12]);
    assert_eq!(error(&bytes), DecodeError { kind: DecodeErrorKind::InvalidValType(0x12), offset: 13 });

    let mut bytes = EMPTY_MOD.to_vec();
    bytes.extend([0x00, 0x03, b'a', b'b', b'c']);
    assert!(parse_bytes(&bytes).is_ok());

    let mut bytes = EMPTY_MOD.to_vec();
    bytes.extend([0x00, 0x04, b'a', b'b', b'c']);
    assert_eq!(error(&bytes), DecodeError { kind: DecodeErrorKind::UnexpectedEof, offset: 13 });
}

#[test]
fn unknown_opcode_is_reported() {
    let mut bytes = ADD_MOD.to_vec();
    bytes[39] = 0xFF;
    assert_eq!(error(&bytes), DecodeError { kind: DecodeErrorKind::UnknownOpcode(0xFF), offset: 39 });
}

#[test]
fn names_are_utf8() {
    let mut bytes = ADD_MOD.to_vec();
    bytes[25] = 0xFF;
    assert_eq!(error(&bytes), DecodeError { kind: DecodeErrorKind::InvalidUtf8, offset: 24 });
}

#[test]
fn leb128_numbers() {
    let bytes = [0xE5, 0x8E, 0x26];
    let mut parser = Parser::new(&bytes);
    assert_eq!(parser.parse_u32(), Ok(624485));
    assert_eq!(parser.pos, 3);

    let bytes = [0xC0, 0xBB, 0x78];
    let mut parser = Parser::new(&bytes);
    assert_eq!(parser.parse_i32(), Ok(-123456));

    let bytes = [0xFF, 0xFF, 0xFF, 0xFF, 0x0F];
    assert_eq!(Parser::new(&bytes).parse_u32(), Ok(u32::MAX));

    let bytes = [0x80, 0x80, 0x80, 0x80, 0x78];
    assert_eq!(Parser::new(&bytes).parse_i32(), Ok(i32::MIN));

    let bytes = [0x7F];
    assert_eq!(Parser::new(&bytes).parse_i64(), Ok(-1));
    let bytes = [0x80, 0x80, 0x80, 0x80, 0x80, 0x80, 0x80, 0x80, 0x80, 0x7F];
    assert_eq!(Parser::new(&bytes).parse_i64(), Ok(i64::MIN));
}

#[test]
fn overlong_leb128_is_an_error() {
    let bytes = [0x80, 0x80, 0x80, 0x80, 0x80, 0x00];
    assert_eq!(
        Parser::new(&bytes).parse_u32(),
        Err(DecodeError { kind: DecodeErrorKind::InvalidLeb128, offset: 5 })
    );
    let bytes = [0xFF, 0xFF, 0xFF, 0xFF, 0x1F];
    assert_eq!(
        Parser::new(&bytes).parse_u32(),
        Err(DecodeError { kind: DecodeErrorKind::InvalidLeb128, offset: 0 })
    );
    let bytes = [0x80, 0x80];
    assert_eq!(
        Parser::new(&bytes).parse_u32(),
        Err(DecodeError { kind: DecodeErrorKind::UnexpectedEof, offset: 2 })
    );
}
