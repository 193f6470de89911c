use wasm::encoder::{encode, write_s, write_u};
use wasm::parser::{parse_bytes, Parser};
use wasm::text::parse_module;

const ADD_MOD: [u8; 41] = [
    0x00, 0x61, 0x73, 0x6d, 0x01, 0x00, 0x00, 0x00, //
    0x01, 0x07, 0x01, 0x60, 0x02, 0x7f, 0x7f, 0x01, 0x7f, //
    0x03, 0x02, 0x01, 0x00, //
    0x07, 0x07, 0x01, 0x03, 0x61, 0x64, 0x64, 0x00, 0x00, //
    0x0a, 0x09, 0x01, 0x07, 0x00, 0x20, 0x00, 0x20, 0x01, 0x6a, 0x0b,
];

#[test]
fn numbers_are_written_as_briefly_as_can_be() {
    let unsigned = |v: u64| {
        let mut out = vec![];
        write_u(&mut out, v);
        out
    };
    let signed = |v: i64| {
        let mut out = vec![];
        write_s(&mut out, v);
        out
    };
    assert_eq!(unsigned(0), [0x00]);
    assert_eq!(unsigned(127), [0x7F]);
    assert_eq!(unsigned(128), [0x80, 0x01]);
    assert_eq!(unsigned(624485), [0xE5, 0x8E, 0x26]);
    assert_eq!(unsigned(u32::MAX as u64), [0xFF, 0xFF, 0xFF, 0xFF, 0x0F]);
    assert_eq!(signed(0), [0x00]);
    assert_eq!(signed(-1), [0x7F]);
    assert_eq!(signed(63), [0x3F]);
    assert_eq!(signed(64), [0xC0, 0x00]);
    assert_eq!(signed(-64), [0x40]);
    assert_eq!(signed(-65), [0xBF, 0x7F]);
    assert_eq!(signed(-123456), [0xC0, 0xBB, 0x78]);
    assert_eq!(signed(i32::MIN as i64), [0x80, 0x80, 0x80, 0x80, 0x78]);
    assert_eq!(signed(i64::MIN), [0x80, 0x80, 0x80, 0x80, 0x80, 0x80, 0x80, 0x80, 0x80, 0x7F]);
    for v in [0i64, 1, -1, 63, 64, -64, -65, 8191, 8192, -8193, i64::MAX, i64::MIN] {
        let bytes = signed(v);
        assert_eq!(Parser::new(&bytes).parse_i64(), Ok(v));
    }
    for v in [0u32, 1, 127, 128, 16383, 16384, u32::MAX] {
        let bytes = unsigned(v as u64);
        assert_eq!(Parser::new(&bytes).parse_u32(), Ok(v));
    }
}

#[test]
fn a_module_that_was_decoded_is_written_as_it_was() {
    let module = parse_bytes(&ADD_MOD).unwrap();
    let bytes = encode(&module).unwrap();
    let again = parse_bytes(&bytes).unwrap();
    assert_eq!(format!("{module:?}"), format!("{again:?}"));
    let sections: Vec<u8> = vec![1, 2, 3, 4, 5, 6, 7, 9, 10, 11];
    let mut at = 8;
    let mut seen = vec![];
    while at < bytes.len() {
        seen.push(bytes[at]);
        at += 2 + bytes[at + 1] as usize;
    }
    assert_eq!(seen, sections);
    assert!(bytes.windows(11).any(|w| w == &ADD_MOD[30..41]));
}

#[test]
fn writing_and_decoding_gives_the_module_back() {
    let text = r#"
    (module
      (type (func (param i32 i64) (result i32)))
      (type (func))
      (import "env" "f" (func (type 1)))
      (import "env" "t" (table 1 2 funcref))
      (import "env" "m" (memory 1))
      (import "env" "g" (global (mut i64)))
      (memory 1 3)
      (table 4 funcref)
      (global (mut i32) i32.const -123456)
      (global f64 f64.const -inf)
      (func (type 0) (local i32 i64)
        block (result i32)
          loop
            local.get 0
            if (type 1) nop else unreachable end
            i64.const -9223372036854775808
            i32.wrap_i64
            br_table 0 1 0
          end
          i32.const 2147483647
        end
        local.get 1
        i64.eqz
        select
        i32.load8_s offset=3 align=1
        f32.const nan
        f32.reinterpret_i32
        f32.add
        drop
        call_indirect (type 1)
        memory.grow
        return)
      (func (type 1))
      (export "f" (func 1))
      (export "m" (memory 0))
      (start 2)
      (elem (offset i32.const 1) func 0 1)
      (elem (table 1) (offset i32.const 0) 2)
      (data (offset i32.const 4) "\00\ff" "abc")
      (data (memory 1) (offset global.get 0) ""))
    "#;
    let module = parse_module(text).unwrap();
    let bytes = encode(&module).unwrap();
    let again = parse_bytes(&bytes).unwrap();
    assert_eq!(format!("{module:?}"), format!("{again:?}"));
    assert_eq!(encode(&again).unwrap(), bytes);
}
