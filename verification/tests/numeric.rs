use wasm::numeric::{i32_binop, i32_relop, i32_unop};
use wasm::repr::{IntBinop, IntRelop, IntUnop};
use wasm::rt::Error;

#[test]
fn add_wraps() {
    assert_eq!(i32_binop(IntBinop::Add, 2, 3), Ok(5));
    assert_eq!(i32_binop(IntBinop::Add, 0x7FFF_FFFF, 1), Ok(i32::MIN));
}

#[test]
fn signed_division_traps() {
    assert_eq!(i32_binop(IntBinop::DivS, 1, 0), Err(Error::IntegerDivideByZero));
    assert_eq!(i32_binop(IntBinop::DivS, i32::MIN, -1), Err(Error::IntegerOverflow));
    assert_eq!(i32_binop(IntBinop::DivS, -7, 2), Ok(-3));
    assert_eq!(i32_binop(IntBinop::RemS, -7, 2), Ok(-1));
    assert_eq!(i32_binop(IntBinop::RemS, i32::MIN, -1), Ok(0));
}

#[test]
fn shift_count_is_taken_modulo_width() {
    assert_eq!(i32_binop(IntBinop::Shl, 5, 33), i32_binop(IntBinop::Shl, 5, 1));
    assert_eq!(i32_binop(IntBinop::Shl, 5, 33), Ok(10));
    assert_eq!(i32_binop(IntBinop::ShrU, -1, 28), Ok(15));
    assert_eq!(i32_binop(IntBinop::ShrS, -16, 2), Ok(-4));
    assert_eq!(i32_binop(IntBinop::Rotl, 0x4000_0001u32 as i32, 2), Ok(5));
    assert_eq!(i32_binop(IntBinop::Rotr, 5, 2), Ok(0x4000_0001u32 as i32));
}

#[test]
fn unary_and_compare() {
    assert_eq!(i32_unop(IntUnop::Clz, 1), 31);
    assert_eq!(i32_unop(IntUnop::Ctz, 8), 3);
    assert_eq!(i32_unop(IntUnop::Popcnt, -1), 32);
    assert!(i32_relop(IntRelop::LtU, 1, -1));
    assert!(!i32_relop(IntRelop::LtS, 1, -1));
}
