//! The integer instructions: what each computes, as a function of its
//! operands, and the code that computes it.
use vstd::prelude::*;
use vstd::std_specs::bits::*;
use crate::repr::{IntBinop, IntRelop, IntUnop};
use crate::rt::Error;

verus! {

/// Division that rounds toward zero.
pub open spec fn spec_div_trunc(a: int, b: int) -> int {
    if a >= 0 && b > 0 {
        a / b
    } else if a < 0 && b > 0 {
        -((-a) / b)
    } else if a >= 0 && b < 0 {
        -(a / (-b))
    } else {
        (-a) / (-b)
    }
}

/// The remainder of the division that rounds toward zero: it has the sign of
/// the dividend.
pub open spec fn spec_rem_trunc(a: int, b: int) -> int {
    a - b * spec_div_trunc(a, b)
}

/// The number of ones among the low `n` binary digits of `x`.
pub open spec fn spec_popcount(x: nat, n: nat) -> nat
    decreases n,
{
    if n == 0 {
        0
    } else {
        (x % 2) + spec_popcount(x / 2, (n - 1) as nat)
    }
}

/// Among `n` digits there are at most `n` ones.
pub proof fn lemma_popcount_bound(x: nat, n: nat)
    ensures
        spec_popcount(x, n) <= n,
    decreases n,
{
    if n > 0 {
        lemma_popcount_bound(x / 2, (n - 1) as nat);
    }
}

/// The truncating remainder is the remainder of the magnitudes, with the
/// sign of the dividend.
pub proof fn lemma_rem_trunc(a: int, b: int)
    requires
        b != 0,
    ensures
        spec_rem_trunc(a, b) == if a >= 0 {
            a % (if b > 0 { b } else { -b })
        } else {
            -((-a) % (if b > 0 { b } else { -b }))
        },
{
    let ma = if a >= 0 { a } else { -a };
    let mb = if b > 0 { b } else { -b };
    let q = ma / mb;
    vstd::arithmetic::div_mod::lemma_fundamental_div_mod(ma, mb);
    assert(mb * (-q) == -(mb * q)) by (nonlinear_arith);
    assert((-mb) * q == -(mb * q)) by (nonlinear_arith);
    assert((-mb) * (-q) == mb * q) by (nonlinear_arith);
    if b > 0 {
        assert(b * q == mb * q);
        assert(b * (-q) == -(mb * q));
    } else {
        assert(b == -mb);
        assert(b * q == -(mb * q));
        assert(b * (-q) == mb * q);
    }
}

/// The unsigned reading of the bits of an i32.
pub open spec fn spec_u32_of(x: i32) -> int {
    if x >= 0 {
        x as int
    } else {
        x + 0x1_0000_0000
    }
}

/// The i32 whose bits are the low 32 bits of `x`: `x` modulo 2^32, read as
/// a signed number.
pub open spec fn spec_wrap32(x: int) -> i32 {
    let m = x % 0x1_0000_0000;
    if m >= 0x8000_0000 {
        (m - 0x1_0000_0000) as i32
    } else {
        m as i32
    }
}

pub fn u32_of(x: i32) -> (r: u32)
    ensures
        r == spec_u32_of(x),
{
    if x >= 0 {
        x as u32
    } else {
        ((x as i64) + 0x1_0000_0000) as u32
    }
}

pub fn i32_of(x: u32) -> (r: i32)
    ensures
        r == spec_wrap32(x as int),
        spec_u32_of(r) == x,
{
    if x < 0x8000_0000 {
        x as i32
    } else {
        ((x as i64) - 0x1_0000_0000) as i32
    }
}

/// Shift left; the count is taken modulo 32.
pub open spec fn spec_i32_shl(a: i32, b: i32) -> i32 {
    spec_wrap32((((spec_u32_of(a) as u32) << ((spec_u32_of(b) % 32) as u32)) as u32) as int)
}

/// Logical shift right; the count is taken modulo 32.
pub open spec fn spec_i32_shr_u(a: i32, b: i32) -> i32 {
    spec_wrap32((((spec_u32_of(a) as u32) >> ((spec_u32_of(b) % 32) as u32)) as u32) as int)
}

/// Arithmetic shift right; the count is taken modulo 32.
pub open spec fn spec_i32_shr_s(a: i32, b: i32) -> i32 {
    a >> ((spec_u32_of(b) % 32) as u32)
}

/// Rotation of the bits of `a` to the left by `k` places, `k < 32`.
pub open spec fn spec_u32_rotl(a: u32, k: u32) -> u32 {
    if k == 0 {
        a
    } else {
        (a << k) | (a >> ((32 - k) as u32))
    }
}

/// Rotate left; the count is taken modulo 32.
pub open spec fn spec_i32_rotl(a: i32, b: i32) -> i32 {
    spec_wrap32(spec_u32_rotl(spec_u32_of(a) as u32, (spec_u32_of(b) % 32) as u32) as int)
}

/// Rotate right; the count is taken modulo 32. Rotating right by `k` is
/// rotating left by `32 - k`.
pub open spec fn spec_i32_rotr(a: i32, b: i32) -> i32 {
    spec_wrap32(
        spec_u32_rotl(spec_u32_of(a) as u32, ((32 - spec_u32_of(b) % 32) % 32) as u32) as int,
    )
}

/// The number of leading zero bits, 32 for zero.
pub open spec fn spec_i32_clz(a: i32) -> i32 {
    u32_leading_zeros(spec_u32_of(a) as u32) as i32
}

/// The number of trailing zero bits, 32 for zero.
pub open spec fn spec_i32_ctz(a: i32) -> i32 {
    u32_trailing_zeros(spec_u32_of(a) as u32) as i32
}

/// The number of one bits.
pub open spec fn spec_i32_popcnt(a: i32) -> i32 {
    spec_popcount(spec_u32_of(a) as nat, 32) as i32
}

/// What a unary integer operation computes.
pub open spec fn spec_i32_unop(op: IntUnop, a: i32) -> i32 {
    match op {
        IntUnop::Clz => spec_i32_clz(a),
        IntUnop::Ctz => spec_i32_ctz(a),
        IntUnop::Popcnt => spec_i32_popcnt(a),
    }
}

/// What a binary integer operation computes, or the trap it ends in.
/// Addition, subtraction and multiplication wrap; division and remainder
/// trap on a zero divisor; signed division traps on the one quotient that
/// does not fit; shifts and rotations take their count modulo 32.
pub open spec fn spec_i32_binop(op: IntBinop, a: i32, b: i32) -> Result<i32, Error> {
    match op {
        IntBinop::Add => Ok(spec_wrap32(a + b)),
        IntBinop::Sub => Ok(spec_wrap32(a - b)),
        IntBinop::Mul => Ok(spec_wrap32(a * b)),
        IntBinop::DivS => if b == 0 {
            Err(Error::IntegerDivideByZero)
        } else if a == i32::MIN && b == -1 {
            Err(Error::IntegerOverflow)
        } else {
            Ok(spec_div_trunc(a as int, b as int) as i32)
        },
        IntBinop::DivU => if b == 0 {
            Err(Error::IntegerDivideByZero)
        } else {
            Ok(spec_wrap32(spec_u32_of(a) / spec_u32_of(b)))
        },
        IntBinop::RemS => if b == 0 {
            Err(Error::IntegerDivideByZero)
        } else {
            Ok(spec_rem_trunc(a as int, b as int) as i32)
        },
        IntBinop::RemU => if b == 0 {
            Err(Error::IntegerDivideByZero)
        } else {
            Ok(spec_wrap32(spec_u32_of(a) % spec_u32_of(b)))
        },
        IntBinop::And => Ok(a & b),
        IntBinop::Or => Ok(a | b),
        IntBinop::Xor => Ok(a ^ b),
        IntBinop::Shl => Ok(spec_i32_shl(a, b)),
        IntBinop::ShrS => Ok(spec_i32_shr_s(a, b)),
        IntBinop::ShrU => Ok(spec_i32_shr_u(a, b)),
        IntBinop::Rotl => Ok(spec_i32_rotl(a, b)),
        IntBinop::Rotr => Ok(spec_i32_rotr(a, b)),
    }
}

/// Whether a comparison holds.
pub open spec fn spec_i32_relop(op: IntRelop, a: i32, b: i32) -> bool {
    match op {
        IntRelop::Eq => a == b,
        IntRelop::Ne => a != b,
        IntRelop::LtS => a < b,
        IntRelop::LtU => spec_u32_of(a) < spec_u32_of(b),
        IntRelop::GtS => a > b,
        IntRelop::GtU => spec_u32_of(a) > spec_u32_of(b),
        IntRelop::LeS => a <= b,
        IntRelop::LeU => spec_u32_of(a) <= spec_u32_of(b),
        IntRelop::GeS => a >= b,
        IntRelop::GeU => spec_u32_of(a) >= spec_u32_of(b),
    }
}

fn u32_popcount(x: u32) -> (r: u32)
    ensures
        r == spec_popcount(x as nat, 32),
        r <= 32,
{
    let mut rest: u32 = x;
    let mut count: u32 = 0;
    let mut left: u32 = 32;
    while left != 0
        invariant
            count + spec_popcount(rest as nat, left as nat) == spec_popcount(x as nat, 32),
            count + left <= 32,
        decreases left,
    {
        count = count + rest % 2;
        rest = rest / 2;
        left = left - 1;
    }
    count
}

fn i32_div_s(a: i32, b: i32) -> (r: i32)
    requires
        b != 0,
        !(a == i32::MIN && b == -1),
    ensures
        r == spec_div_trunc(a as int, b as int),
{
    let ma: u32 = if a >= 0 { a as u32 } else { (-(a as i64)) as u32 };
    let mb: u32 = if b >= 0 { b as u32 } else { (-(b as i64)) as u32 };
    let q: u32 = ma / mb;
    assert(q <= ma) by (nonlinear_arith)
        requires
            q == ma / mb,
            mb >= 1,
    ;
    assert(mb >= 2 ==> q <= ma / 2) by (nonlinear_arith)
        requires
            q == ma / mb,
            mb >= 1,
    ;
    if (a >= 0) == (b >= 0) {
        q as i32
    } else {
        (-(q as i64)) as i32
    }
}

fn i32_rem_s(a: i32, b: i32) -> (r: i32)
    requires
        b != 0,
    ensures
        r == spec_rem_trunc(a as int, b as int),
{
    let ma: u32 = if a >= 0 { a as u32 } else { (-(a as i64)) as u32 };
    let mb: u32 = if b >= 0 { b as u32 } else { (-(b as i64)) as u32 };
    let m: u32 = ma % mb;
    proof {
        lemma_rem_trunc(a as int, b as int);
    }
    if a >= 0 {
        m as i32
    } else {
        (-(m as i64)) as i32
    }
}

/// Computes a unary integer operation.
pub fn i32_unop(op: IntUnop, a: i32) -> (r: i32)
    ensures
        r == spec_i32_unop(op, a),
{
    let ua: u32 = u32_of(a);
    match op {
        IntUnop::Clz => {
            proof {
                axiom_u32_leading_zeros(ua);
            }
            ua.leading_zeros() as i32
        },
        IntUnop::Ctz => {
            proof {
                axiom_u32_trailing_zeros(ua);
            }
            ua.trailing_zeros() as i32
        },
        IntUnop::Popcnt => u32_popcount(ua) as i32,
    }
}

/// Computes a binary integer operation, or reports the trap.
pub fn i32_binop(op: IntBinop, a: i32, b: i32) -> (r: Result<i32, Error>)
    ensures
        r == spec_i32_binop(op, a, b),
{
    let ua: u32 = u32_of(a);
    let ub: u32 = u32_of(b);
    match op {
        IntBinop::Add => Ok(a.wrapping_add(b)),
        IntBinop::Sub => Ok(a.wrapping_sub(b)),
        IntBinop::Mul => Ok(a.wrapping_mul(b)),
        IntBinop::DivS => if b == 0 {
            Err(Error::IntegerDivideByZero)
        } else if a == i32::MIN && b == -1 {
            Err(Error::IntegerOverflow)
        } else {
            Ok(i32_div_s(a, b))
        },
        IntBinop::DivU => if b == 0 {
            Err(Error::IntegerDivideByZero)
        } else {
            Ok(i32_of(ua / ub))
        },
        IntBinop::RemS => if b == 0 {
            Err(Error::IntegerDivideByZero)
        } else {
            Ok(i32_rem_s(a, b))
        },
        IntBinop::RemU => if b == 0 {
            Err(Error::IntegerDivideByZero)
        } else {
            Ok(i32_of(ua % ub))
        },
        IntBinop::And => Ok(a & b),
        IntBinop::Or => Ok(a | b),
        IntBinop::Xor => Ok(a ^ b),
        IntBinop::Shl => Ok(i32_of(ua << (ub % 32))),
        IntBinop::ShrS => Ok(a >> (ub % 32)),
        IntBinop::ShrU => Ok(i32_of(ua >> (ub % 32))),
        IntBinop::Rotl => {
            let k: u32 = ub % 32;
            if k == 0 {
                Ok(i32_of(ua))
            } else {
                Ok(i32_of((ua << k) | (ua >> (32 - k))))
            }
        },
        IntBinop::Rotr => {
            let k: u32 = (32 - ub % 32) % 32;
            if k == 0 {
                Ok(i32_of(ua))
            } else {
                Ok(i32_of((ua << k) | (ua >> (32 - k))))
            }
        },
    }
}

/// Decides a comparison.
pub fn i32_relop(op: IntRelop, a: i32, b: i32) -> (r: bool)
    ensures
        r == spec_i32_relop(op, a, b),
{
    match op {
        IntRelop::Eq => a == b,
        IntRelop::Ne => a != b,
        IntRelop::LtS => a < b,
        IntRelop::LtU => u32_of(a) < u32_of(b),
        IntRelop::GtS => a > b,
        IntRelop::GtU => u32_of(a) > u32_of(b),
        IntRelop::LeS => a <= b,
        IntRelop::LeU => u32_of(a) <= u32_of(b),
        IntRelop::GeS => a >= b,
        IntRelop::GeU => u32_of(a) >= u32_of(b),
    }
}

/// Shifts and rotations look only at the count modulo 32: two counts
/// that agree modulo 32 give the same result. A shift by 32 + 1 is a
/// shift by 1.
pub proof fn lemma_i32_count_modulo(op: IntBinop, a: i32, b: i32, c: i32)
    requires
        op is Shl || op is ShrS || op is ShrU || op is Rotl || op is Rotr,
        spec_u32_of(b) % 32 == spec_u32_of(c) % 32,
    ensures
        spec_i32_binop(op, a, b) == spec_i32_binop(op, a, c),
        spec_i32_binop(op, a, 33i32) == spec_i32_binop(op, a, 1i32),
{
}

/// Signed division of the least number by -1 traps, and so does every
/// division by zero; the signed remainder of the least number by -1 is 0.
pub proof fn lemma_i32_division_traps(a: i32)
    ensures
        spec_i32_binop(IntBinop::DivS, i32::MIN, -1i32) == Err::<i32, Error>(Error::IntegerOverflow),
        spec_i32_binop(IntBinop::DivS, a, 0i32) == Err::<i32, Error>(Error::IntegerDivideByZero),
        spec_i32_binop(IntBinop::DivU, a, 0i32) == Err::<i32, Error>(Error::IntegerDivideByZero),
        spec_i32_binop(IntBinop::RemS, a, 0i32) == Err::<i32, Error>(Error::IntegerDivideByZero),
        spec_i32_binop(IntBinop::RemU, a, 0i32) == Err::<i32, Error>(Error::IntegerDivideByZero),
        spec_i32_binop(IntBinop::RemS, i32::MIN, -1i32) == Ok::<i32, Error>(0),
{
}

/// The unsigned reading of the bits of an i64.
pub open spec fn spec_u64_of(x: i64) -> int {
    if x >= 0 {
        x as int
    } else {
        x + 0x1_0000_0000_0000_0000
    }
}

/// The i64 whose bits are the low 64 bits of `x`: `x` modulo 2^64, read as
/// a signed number.
pub open spec fn spec_wrap64(x: int) -> i64 {
    let m = x % 0x1_0000_0000_0000_0000;
    if m >= 0x8000_0000_0000_0000 {
        (m - 0x1_0000_0000_0000_0000) as i64
    } else {
        m as i64
    }
}

pub fn u64_of(x: i64) -> (r: u64)
    ensures
        r == spec_u64_of(x),
{
    if x >= 0 {
        x as u64
    } else {
        ((x as i128) + 0x1_0000_0000_0000_0000) as u64
    }
}

pub fn i64_of(x: u64) -> (r: i64)
    ensures
        r == spec_wrap64(x as int),
        spec_u64_of(r) == x,
{
    if x < 0x8000_0000_0000_0000 {
        x as i64
    } else {
        ((x as i128) - 0x1_0000_0000_0000_0000) as i64
    }
}

/// Shift left; the count is taken modulo 64.
pub open spec fn spec_i64_shl(a: i64, b: i64) -> i64 {
    spec_wrap64((((spec_u64_of(a) as u64) << ((spec_u64_of(b) % 64) as u64)) as u64) as int)
}

/// Logical shift right; the count is taken modulo 64.
pub open spec fn spec_i64_shr_u(a: i64, b: i64) -> i64 {
    spec_wrap64((((spec_u64_of(a) as u64) >> ((spec_u64_of(b) % 64) as u64)) as u64) as int)
}

/// Arithmetic shift right; the count is taken modulo 64.
pub open spec fn spec_i64_shr_s(a: i64, b: i64) -> i64 {
    a >> ((spec_u64_of(b) % 64) as u64)
}

/// Rotation of the bits of `a` to the left by `k` places, `k < 64`.
pub open spec fn spec_u64_rotl(a: u64, k: u64) -> u64 {
    if k == 0 {
        a
    } else {
        (a << k) | (a >> ((64 - k) as u64))
    }
}

/// Rotate left; the count is taken modulo 64.
pub open spec fn spec_i64_rotl(a: i64, b: i64) -> i64 {
    spec_wrap64(spec_u64_rotl(spec_u64_of(a) as u64, (spec_u64_of(b) % 64) as u64) as int)
}

/// Rotate right; the count is taken modulo 64. Rotating right by `k` is
/// rotating left by `64 - k`.
pub open spec fn spec_i64_rotr(a: i64, b: i64) -> i64 {
    spec_wrap64(
        spec_u64_rotl(spec_u64_of(a) as u64, ((64 - spec_u64_of(b) % 64) % 64) as u64) as int,
    )
}

/// The number of leading zero bits, 64 for zero.
pub open spec fn spec_i64_clz(a: i64) -> i64 {
    u64_leading_zeros(spec_u64_of(a) as u64) as i64
}

/// The number of trailing zero bits, 64 for zero.
pub open spec fn spec_i64_ctz(a: i64) -> i64 {
    u64_trailing_zeros(spec_u64_of(a) as u64) as i64
}

/// The number of one bits.
pub open spec fn spec_i64_popcnt(a: i64) -> i64 {
    spec_popcount(spec_u64_of(a) as nat, 64) as i64
}

/// What a unary integer operation computes.
pub open spec fn spec_i64_unop(op: IntUnop, a: i64) -> i64 {
    match op {
        IntUnop::Clz => spec_i64_clz(a),
        IntUnop::Ctz => spec_i64_ctz(a),
        IntUnop::Popcnt => spec_i64_popcnt(a),
    }
}

/// What a binary integer operation computes, or the trap it ends in.
/// Addition, subtraction and multiplication wrap; division and remainder
/// trap on a zero divisor; signed division traps on the one quotient that
/// does not fit; shifts and rotations take their count modulo 64.
pub open spec fn spec_i64_binop(op: IntBinop, a: i64, b: i64) -> Result<i64, Error> {
    match op {
        IntBinop::Add => Ok(spec_wrap64(a + b)),
        IntBinop::Sub => Ok(spec_wrap64(a - b)),
        IntBinop::Mul => Ok(spec_wrap64(a * b)),
        IntBinop::DivS => if b == 0 {
            Err(Error::IntegerDivideByZero)
        } else if a == i64::MIN && b == -1 {
            Err(Error::IntegerOverflow)
        } else {
            Ok(spec_div_trunc(a as int, b as int) as i64)
        },
        IntBinop::DivU => if b == 0 {
            Err(Error::IntegerDivideByZero)
        } else {
            Ok(spec_wrap64(spec_u64_of(a) / spec_u64_of(b)))
        },
        IntBinop::RemS => if b == 0 {
            Err(Error::IntegerDivideByZero)
        } else {
            Ok(spec_rem_trunc(a as int, b as int) as i64)
        },
        IntBinop::RemU => if b == 0 {
            Err(Error::IntegerDivideByZero)
        } else {
            Ok(spec_wrap64(spec_u64_of(a) % spec_u64_of(b)))
        },
        IntBinop::And => Ok(a & b),
        IntBinop::Or => Ok(a | b),
        IntBinop::Xor => Ok(a ^ b),
        IntBinop::Shl => Ok(spec_i64_shl(a, b)),
        IntBinop::ShrS => Ok(spec_i64_shr_s(a, b)),
        IntBinop::ShrU => Ok(spec_i64_shr_u(a, b)),
        IntBinop::Rotl => Ok(spec_i64_rotl(a, b)),
        IntBinop::Rotr => Ok(spec_i64_rotr(a, b)),
    }
}

/// Whether a comparison holds.
pub open spec fn spec_i64_relop(op: IntRelop, a: i64, b: i64) -> bool {
    match op {
        IntRelop::Eq => a == b,
        IntRelop::Ne => a != b,
        IntRelop::LtS => a < b,
        IntRelop::LtU => spec_u64_of(a) < spec_u64_of(b),
        IntRelop::GtS => a > b,
        IntRelop::GtU => spec_u64_of(a) > spec_u64_of(b),
        IntRelop::LeS => a <= b,
        IntRelop::LeU => spec_u64_of(a) <= spec_u64_of(b),
        IntRelop::GeS => a >= b,
        IntRelop::GeU => spec_u64_of(a) >= spec_u64_of(b),
    }
}

fn u64_popcount(x: u64) -> (r: u64)
    ensures
        r == spec_popcount(x as nat, 64),
        r <= 64,
{
    let mut rest: u64 = x;
    let mut count: u64 = 0;
    let mut left: u64 = 64;
    while left != 0
        invariant
            count + spec_popcount(rest as nat, left as nat) == spec_popcount(x as nat, 64),
            count + left <= 64,
        decreases left,
    {
        count = count + rest % 2;
        rest = rest / 2;
        left = left - 1;
    }
    count
}

fn i64_div_s(a: i64, b: i64) -> (r: i64)
    requires
        b != 0,
        !(a == i64::MIN && b == -1),
    ensures
        r == spec_div_trunc(a as int, b as int),
{
    let ma: u64 = if a >= 0 { a as u64 } else { (-(a as i128)) as u64 };
    let mb: u64 = if b >= 0 { b as u64 } else { (-(b as i128)) as u64 };
    let q: u64 = ma / mb;
    assert(q <= ma) by (nonlinear_arith)
        requires
            q == ma / mb,
            mb >= 1,
    ;
    assert(mb >= 2 ==> q <= ma / 2) by (nonlinear_arith)
        requires
            q == ma / mb,
            mb >= 1,
    ;
    if (a >= 0) == (b >= 0) {
        q as i64
    } else {
        (-(q as i128)) as i64
    }
}

fn i64_rem_s(a: i64, b: i64) -> (r: i64)
    requires
        b != 0,
    ensures
        r == spec_rem_trunc(a as int, b as int),
{
    let ma: u64 = if a >= 0 { a as u64 } else { (-(a as i128)) as u64 };
    let mb: u64 = if b >= 0 { b as u64 } else { (-(b as i128)) as u64 };
    let m: u64 = ma % mb;
    proof {
        lemma_rem_trunc(a as int, b as int);
    }
    if a >= 0 {
        m as i64
    } else {
        (-(m as i128)) as i64
    }
}

/// Computes a unary integer operation.
pub fn i64_unop(op: IntUnop, a: i64) -> (r: i64)
    ensures
        r == spec_i64_unop(op, a),
{
    let ua: u64 = u64_of(a);
    match op {
        IntUnop::Clz => {
            proof {
                axiom_u64_leading_zeros(ua);
            }
            ua.leading_zeros() as i64
        },
        IntUnop::Ctz => {
            proof {
                axiom_u64_trailing_zeros(ua);
            }
            ua.trailing_zeros() as i64
        },
        IntUnop::Popcnt => u64_popcount(ua) as i64,
    }
}

/// Computes a binary integer operation, or reports the trap.
pub fn i64_binop(op: IntBinop, a: i64, b: i64) -> (r: Result<i64, Error>)
    ensures
        r == spec_i64_binop(op, a, b),
{
    let ua: u64 = u64_of(a);
    let ub: u64 = u64_of(b);
    match op {
        IntBinop::Add => Ok(a.wrapping_add(b)),
        IntBinop::Sub => Ok(a.wrapping_sub(b)),
        IntBinop::Mul => Ok(a.wrapping_mul(b)),
        IntBinop::DivS => if b == 0 {
            Err(Error::IntegerDivideByZero)
        } else if a == i64::MIN && b == -1 {
            Err(Error::IntegerOverflow)
        } else {
            Ok(i64_div_s(a, b))
        },
        IntBinop::DivU => if b == 0 {
            Err(Error::IntegerDivideByZero)
        } else {
            Ok(i64_of(ua / ub))
        },
        IntBinop::RemS => if b == 0 {
            Err(Error::IntegerDivideByZero)
        } else {
            Ok(i64_rem_s(a, b))
        },
        IntBinop::RemU => if b == 0 {
            Err(Error::IntegerDivideByZero)
        } else {
            Ok(i64_of(ua % ub))
        },
        IntBinop::And => Ok(a & b),
        IntBinop::Or => Ok(a | b),
        IntBinop::Xor => Ok(a ^ b),
        IntBinop::Shl => Ok(i64_of(ua << (ub % 64))),
        IntBinop::ShrS => Ok(a >> (ub % 64)),
        IntBinop::ShrU => Ok(i64_of(ua >> (ub % 64))),
        IntBinop::Rotl => {
            let k: u64 = ub % 64;
            if k == 0 {
                Ok(i64_of(ua))
            } else {
                Ok(i64_of((ua << k) | (ua >> (64 - k))))
            }
        },
        IntBinop::Rotr => {
            let k: u64 = (64 - ub % 64) % 64;
            if k == 0 {
                Ok(i64_of(ua))
            } else {
                Ok(i64_of((ua << k) | (ua >> (64 - k))))
            }
        },
    }
}

/// Decides a comparison.
pub fn i64_relop(op: IntRelop, a: i64, b: i64) -> (r: bool)
    ensures
        r == spec_i64_relop(op, a, b),
{
    match op {
        IntRelop::Eq => a == b,
        IntRelop::Ne => a != b,
        IntRelop::LtS => a < b,
        IntRelop::LtU => u64_of(a) < u64_of(b),
        IntRelop::GtS => a > b,
        IntRelop::GtU => u64_of(a) > u64_of(b),
        IntRelop::LeS => a <= b,
        IntRelop::LeU => u64_of(a) <= u64_of(b),
        IntRelop::GeS => a >= b,
        IntRelop::GeU => u64_of(a) >= u64_of(b),
    }
}

/// Shifts and rotations look only at the count modulo 64: two counts
/// that agree modulo 64 give the same result. A shift by 64 + 1 is a
/// shift by 1.
pub proof fn lemma_i64_count_modulo(op: IntBinop, a: i64, b: i64, c: i64)
    requires
        op is Shl || op is ShrS || op is ShrU || op is Rotl || op is Rotr,
        spec_u64_of(b) % 64 == spec_u64_of(c) % 64,
    ensures
        spec_i64_binop(op, a, b) == spec_i64_binop(op, a, c),
        spec_i64_binop(op, a, 65i64) == spec_i64_binop(op, a, 1i64),
{
}

/// Signed division of the least number by -1 traps, and so does every
/// division by zero; the signed remainder of the least number by -1 is 0.
pub proof fn lemma_i64_division_traps(a: i64)
    ensures
        spec_i64_binop(IntBinop::DivS, i64::MIN, -1i64) == Err::<i64, Error>(Error::IntegerOverflow),
        spec_i64_binop(IntBinop::DivS, a, 0i64) == Err::<i64, Error>(Error::IntegerDivideByZero),
        spec_i64_binop(IntBinop::DivU, a, 0i64) == Err::<i64, Error>(Error::IntegerDivideByZero),
        spec_i64_binop(IntBinop::RemS, a, 0i64) == Err::<i64, Error>(Error::IntegerDivideByZero),
        spec_i64_binop(IntBinop::RemU, a, 0i64) == Err::<i64, Error>(Error::IntegerDivideByZero),
        spec_i64_binop(IntBinop::RemS, i64::MIN, -1i64) == Ok::<i64, Error>(0),
{
}

} // verus!
