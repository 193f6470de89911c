//! The machine: values, the operand stack, and the execution of
//! instantiated functions.
use vstd::prelude::*;
pub use crate::machine::{Frame, Label, Machine, Request, Status};
use crate::numeric::{
    i32_binop, i32_of, i32_relop, i32_unop, i64_binop, i64_of, i64_relop, i64_unop, spec_i32_binop,
    spec_i32_relop, spec_i32_shr_u, spec_i32_unop, spec_i64_binop, spec_i64_relop, spec_i64_unop,
    spec_u32_of, spec_u64_of, spec_wrap32, spec_wrap64, u32_of, u64_of,
};
use crate::instance::{mems_view, GlobalAddr, GlobalInst, MemAddr, MemInstInner, MemView};
use crate::repr::{Inst, IntConv, LoadOp, MemArg, Reftype, StoreOp, ValType};

verus! {

/// A reference: the typed null, or the address of an instance.
#[derive(Debug, Copy, Clone, PartialEq, Eq, Structural)]
pub enum Ref {
    Null(Reftype),
    Func(usize),
    Extern(usize),
}

/// A runtime value. Every value carries its kind; numbers in binary floating
/// point are held as their bit patterns.
#[derive(Debug, Copy, Clone, PartialEq, Eq, Structural)]
pub enum Val {
    I32(i32),
    I64(i64),
    F32(u32),
    F64(u64),
    Reference(Ref),
}

/// Why a computation was aborted.
#[derive(Debug, Copy, Clone, PartialEq, Eq, Structural)]
pub enum Error {
    /// The operand stack holds fewer values than an instruction takes.
    StackEmpty,
    /// An address does not name an instance of the store, or the machine's
    /// own records contradict each other.
    SegFault,
    FunctionNotFound,
    LocalNotFound,
    LabelNotFound,
    /// An operand is of another kind than the instruction takes.
    WrongValType,
    /// An access of `len` bytes at `addr` does not lie within the memory.
    MemoryOutOfBounds { addr: u64, len: u64 },
    /// The alignment hint exceeds the width of the access.
    InvalidAlignment,
    Unreachable,
    TableOutOfBounds,
    UninitializedElement,
    IndirectCallTypeMismatch,
    IntegerDivideByZero,
    IntegerOverflow,
    InvalidConversion,
    CallStackExhausted,
    ImmutableGlobal,
    /// The embedder answered although nothing was asked, or answered with
    /// values that the pending request does not take.
    UnexpectedAnswer,
    /// A trap that a host function raised.
    Host,
}

/// How an instruction leaves the straight line: with a trap, with a branch
/// to an enclosing label, or with a return from the function.
#[derive(Debug, Copy, Clone, PartialEq, Eq, Structural)]
pub enum Exception {
    Runtime(Error),
    Break(usize),
    Return,
}

impl Exception {
    pub fn from(value: Error) -> (e: Exception)
        ensures
            e == Exception::Runtime(value),
    {
        Exception::Runtime(value)
    }
}

impl Ref {
    pub open spec fn spec_kind(self) -> ValType {
        match self {
            Ref::Null(Reftype::Funcref) => ValType::FuncRef,
            Ref::Null(Reftype::Externref) => ValType::ExternRef,
            Ref::Func(_) => ValType::FuncRef,
            Ref::Extern(_) => ValType::ExternRef,
        }
    }

    /// The kind of the reference.
    pub fn kind(self) -> (t: ValType)
        ensures
            t == self.spec_kind(),
    {
        match self {
            Ref::Null(Reftype::Funcref) => ValType::FuncRef,
            Ref::Null(Reftype::Externref) => ValType::ExternRef,
            Ref::Func(_) => ValType::FuncRef,
            Ref::Extern(_) => ValType::ExternRef,
        }
    }
}

impl Val {
    pub open spec fn spec_kind(self) -> ValType {
        match self {
            Val::I32(_) => ValType::I32,
            Val::I64(_) => ValType::I64,
            Val::F32(_) => ValType::F32,
            Val::F64(_) => ValType::F64,
            Val::Reference(r) => r.spec_kind(),
        }
    }

    /// The kind of the value.
    pub fn kind(self) -> (t: ValType)
        ensures
            t == self.spec_kind(),
    {
        match self {
            Val::I32(_) => ValType::I32,
            Val::I64(_) => ValType::I64,
            Val::F32(_) => ValType::F32,
            Val::F64(_) => ValType::F64,
            Val::Reference(r) => r.kind(),
        }
    }
}

/// The value that a local of type `t` starts with: zero, or the null
/// reference. There are no values of the vector type.
pub open spec fn spec_default_value(t: ValType) -> Option<Val> {
    match t {
        ValType::I32 => Some(Val::I32(0)),
        ValType::I64 => Some(Val::I64(0)),
        ValType::F32 => Some(Val::F32(0)),
        ValType::F64 => Some(Val::F64(0)),
        ValType::V128 => None,
        ValType::FuncRef => Some(Val::Reference(Ref::Null(Reftype::Funcref))),
        ValType::ExternRef => Some(Val::Reference(Ref::Null(Reftype::Externref))),
    }
}

pub fn default_value(t: ValType) -> (r: Option<Val>)
    ensures
        r == spec_default_value(t),
        r matches Some(v) ==> v.spec_kind() == t,
{
    match t {
        ValType::I32 => Some(Val::I32(0)),
        ValType::I64 => Some(Val::I64(0)),
        ValType::F32 => Some(Val::F32(0)),
        ValType::F64 => Some(Val::F64(0)),
        ValType::V128 => None,
        ValType::FuncRef => Some(Val::Reference(Ref::Null(Reftype::Funcref))),
        ValType::ExternRef => Some(Val::Reference(Ref::Null(Reftype::Externref))),
    }
}

/// The kinds of a sequence of values.
pub open spec fn spec_kinds(vals: Seq<Val>) -> Seq<ValType> {
    Seq::new(vals.len(), |i: int| vals[i].spec_kind())
}

/// Whether there are values from `from` on, and they have exactly the
/// kinds `types`.
pub fn kinds_match(vals: &Vec<Val>, from: usize, types: &Vec<ValType>) -> (r: bool)
    ensures
        r == (from <= vals@.len() && spec_kinds(vals@.skip(from as int)) == types@),
{
    if from > vals.len() {
        return false;
    }
    let n: usize = vals.len() - from;
    if n != types.len() {
        return false;
    }
    let ghost tail = vals@.skip(from as int);
    let mut i: usize = 0;
    while i < n
        invariant
            i <= n,
            n == types@.len(),
            from + n == vals@.len() <= usize::MAX,
            tail == vals@.skip(from as int),
            forall|j: int| 0 <= j < i ==> tail[j].spec_kind() == types@[j],
        decreases n - i,
    {
        if vals[from + i].kind() != types[i] {
            assert(spec_kinds(tail)[i as int] != types@[i as int]);
            return false;
        }
        i = i + 1;
    }
    assert(spec_kinds(tail) =~= types@);
    true
}

/// Taking one value off a stack: the rest and the value, or the error.
pub open spec fn spec_pop(st: Seq<Val>) -> Result<(Seq<Val>, Val), Error> {
    if st.len() == 0 {
        Err(Error::StackEmpty)
    } else {
        Ok((st.drop_last(), st.last()))
    }
}

/// Taking one `i32` off a stack.
pub open spec fn spec_pop_i32(st: Seq<Val>) -> Result<(Seq<Val>, i32), Error> {
    if st.len() == 0 {
        Err(Error::StackEmpty)
    } else {
        match st.last() {
            Val::I32(x) => Ok((st.drop_last(), x)),
            _ => Err(Error::WrongValType),
        }
    }
}

/// Taking one `i64` off a stack.
pub open spec fn spec_pop_i64(st: Seq<Val>) -> Result<(Seq<Val>, i64), Error> {
    if st.len() == 0 {
        Err(Error::StackEmpty)
    } else {
        match st.last() {
            Val::I64(x) => Ok((st.drop_last(), x)),
            _ => Err(Error::WrongValType),
        }
    }
}

/// Taking the two operands of a binary `i32` instruction off a stack: the
/// second operand lies on top.
pub open spec fn spec_pop2_i32(st: Seq<Val>) -> Result<(Seq<Val>, i32, i32), Error> {
    match spec_pop_i32(st) {
        Err(e) => Err(e),
        Ok((s1, b)) => match spec_pop_i32(s1) {
            Err(e) => Err(e),
            Ok((s2, a)) => Ok((s2, a, b)),
        },
    }
}

/// Taking the two operands of a binary `i64` instruction off a stack.
pub open spec fn spec_pop2_i64(st: Seq<Val>) -> Result<(Seq<Val>, i64, i64), Error> {
    match spec_pop_i64(st) {
        Err(e) => Err(e),
        Ok((s1, b)) => match spec_pop_i64(s1) {
            Err(e) => Err(e),
            Ok((s2, a)) => Ok((s2, a, b)),
        },
    }
}

/// The operand stack: last in, first out.
#[derive(Debug)]
pub struct Stack {
    pub items: Vec<Val>,
}

impl View for Stack {
    type V = Seq<Val>;

    open spec fn view(&self) -> Seq<Val> {
        self.items@
    }
}

impl Stack {
    pub fn new() -> (s: Self)
        ensures
            s@ == Seq::<Val>::empty(),
    {
        Self { items: Vec::new() }
    }

    pub fn len(&self) -> (n: usize)
        ensures
            n == self@.len(),
    {
        self.items.len()
    }

    pub fn push(&mut self, item: Val)
        ensures
            final(self)@ == old(self)@.push(item),
    {
        self.items.push(item);
    }

    /// Takes the top value off; an empty stack stays as it is.
    pub fn pop(&mut self) -> (r: Result<Val, Error>)
        ensures
            match spec_pop(old(self)@) {
                Ok((rest, v)) => r == Ok::<Val, Error>(v) && final(self)@ == rest,
                Err(e) => r == Err::<Val, Error>(e) && final(self)@ == old(self)@,
            },
    {
        match self.items.pop() {
            Some(v) => Ok(v),
            None => Err(Error::StackEmpty),
        }
    }

    /// The top value.
    pub fn peek(&self) -> (r: Result<Val, Error>)
        ensures
            r == if self@.len() == 0 {
                Err::<Val, Error>(Error::StackEmpty)
            } else {
                Ok::<Val, Error>(self@.last())
            },
    {
        let n: usize = self.items.len();
        if n == 0 {
            Err(Error::StackEmpty)
        } else {
            Ok(self.items[n - 1])
        }
    }

    /// Takes an `i32` off the top. A value of another kind is taken off
    /// too.
    pub fn pop_i32(&mut self) -> (r: Result<i32, Error>)
        ensures
            match spec_pop_i32(old(self)@) {
                Ok((rest, v)) => r == Ok::<i32, Error>(v) && final(self)@ == rest,
                Err(e) => r == Err::<i32, Error>(e) && final(self)@ == (if old(self)@.len() == 0 {
                    old(self)@
                } else {
                    old(self)@.drop_last()
                }),
            },
    {
        match self.items.pop() {
            Some(Val::I32(x)) => Ok(x),
            Some(_) => Err(Error::WrongValType),
            None => Err(Error::StackEmpty),
        }
    }

    /// Takes an `i64` off the top. A value of another kind is taken off
    /// too.
    pub fn pop_i64(&mut self) -> (r: Result<i64, Error>)
        ensures
            match spec_pop_i64(old(self)@) {
                Ok((rest, v)) => r == Ok::<i64, Error>(v) && final(self)@ == rest,
                Err(e) => r == Err::<i64, Error>(e) && final(self)@ == (if old(self)@.len() == 0 {
                    old(self)@
                } else {
                    old(self)@.drop_last()
                }),
            },
    {
        match self.items.pop() {
            Some(Val::I64(x)) => Ok(x),
            Some(_) => Err(Error::WrongValType),
            None => Err(Error::StackEmpty),
        }
    }
}

/// The locals of the active frames, the innermost frame's last.
#[derive(Debug)]
pub struct Locals {
    pub locals: Vec<Val>,
}

impl View for Locals {
    type V = Seq<Val>;

    open spec fn view(&self) -> Seq<Val> {
        self.locals@
    }
}

impl Locals {
    pub fn empty() -> (l: Self)
        ensures
            l@ == Seq::<Val>::empty(),
    {
        Self { locals: Vec::new() }
    }

    /// The local at `index`.
    pub fn get(&self, index: usize) -> (r: Result<Val, Error>)
        ensures
            r == if index < self@.len() {
                Ok::<Val, Error>(self@[index as int])
            } else {
                Err::<Val, Error>(Error::LocalNotFound)
            },
    {
        if index < self.locals.len() {
            Ok(self.locals[index])
        } else {
            Err(Error::LocalNotFound)
        }
    }

    /// Gives the local at `index` the value `val`.
    pub fn set(&mut self, index: usize, val: Val) -> (r: Result<(), Error>)
        ensures
            index < old(self)@.len() ==> r is Ok && final(self)@ == old(self)@.update(
                index as int,
                val,
            ),
            index >= old(self)@.len() ==> r == Err::<(), Error>(Error::LocalNotFound)
                && final(self)@ == old(self)@,
    {
        if index < self.locals.len() {
            self.locals[index] = val;
            Ok(())
        } else {
            Err(Error::LocalNotFound)
        }
    }
}

/// 1 if `a` is above `b`, both read as unsigned; else 0.
pub fn i32gt_u(a: i32, b: i32) -> (r: i32)
    ensures
        r == if spec_u32_of(a) > spec_u32_of(b) { 1i32 } else { 0i32 },
{
    if u32_of(a) > u32_of(b) { 1 } else { 0 }
}

/// 1 if `a` is below `b`, both read as unsigned; else 0.
pub fn i32lt_u(a: i32, b: i32) -> (r: i32)
    ensures
        r == if spec_u32_of(a) < spec_u32_of(b) { 1i32 } else { 0i32 },
{
    if u32_of(a) < u32_of(b) { 1 } else { 0 }
}

/// 1 if `a` is at least `b`, both read as unsigned; else 0.
pub fn i32ge_u(a: i32, b: i32) -> (r: i32)
    ensures
        r == if spec_u32_of(a) >= spec_u32_of(b) { 1i32 } else { 0i32 },
{
    if u32_of(a) >= u32_of(b) { 1 } else { 0 }
}

/// 1 if `a` is at most `b`, both read as unsigned; else 0.
pub fn i32le_u(a: i32, b: i32) -> (r: i32)
    ensures
        r == if spec_u32_of(a) <= spec_u32_of(b) { 1i32 } else { 0i32 },
{
    if u32_of(a) <= u32_of(b) { 1 } else { 0 }
}

/// `a` shifted right by `b` modulo 32 places, zeros coming in from the left.
pub fn i32shr_u(a: i32, b: i32) -> (r: i32)
    ensures
        r == spec_i32_shr_u(a, b),
{
    i32_of(u32_of(a) >> (u32_of(b) % 32))
}

/// The number 0 or 1 that stands for a truth value.
pub open spec fn spec_flag(b: bool) -> Val {
    if b {
        Val::I32(1)
    } else {
        Val::I32(0)
    }
}

pub fn flag(b: bool) -> (v: Val)
    ensures
        v == spec_flag(b),
{
    if b { Val::I32(1) } else { Val::I32(0) }
}

/// What a conversion between integers and bit patterns makes of a value, or
/// the error for a value of the wrong kind.
pub open spec fn spec_convert(op: IntConv, v: Val) -> Result<Val, Error> {
    match (op, v) {
        (IntConv::I32WrapI64, Val::I64(x)) => Ok(Val::I32(spec_wrap32(x as int))),
        (IntConv::I64ExtendI32S, Val::I32(x)) => Ok(Val::I64(x as i64)),
        (IntConv::I64ExtendI32U, Val::I32(x)) => Ok(Val::I64(spec_u32_of(x) as i64)),
        (IntConv::I32ReinterpretF32, Val::F32(x)) => Ok(Val::I32(spec_wrap32(x as int))),
        (IntConv::I64ReinterpretF64, Val::F64(x)) => Ok(Val::I64(spec_wrap64(x as int))),
        (IntConv::F32ReinterpretI32, Val::I32(x)) => Ok(Val::F32(spec_u32_of(x) as u32)),
        (IntConv::F64ReinterpretI64, Val::I64(x)) => Ok(Val::F64(spec_u64_of(x) as u64)),
        _ => Err(Error::WrongValType),
    }
}

pub fn convert(op: IntConv, v: Val) -> (r: Result<Val, Error>)
    ensures
        r == spec_convert(op, v),
{
    match (op, v) {
        (IntConv::I32WrapI64, Val::I64(x)) => Ok(Val::I32(i32_of((u64_of(x) % 0x1_0000_0000) as u32))),
        (IntConv::I64ExtendI32S, Val::I32(x)) => Ok(Val::I64(x as i64)),
        (IntConv::I64ExtendI32U, Val::I32(x)) => Ok(Val::I64(u32_of(x) as i64)),
        (IntConv::I32ReinterpretF32, Val::F32(x)) => Ok(Val::I32(i32_of(x))),
        (IntConv::I64ReinterpretF64, Val::F64(x)) => Ok(Val::I64(i64_of(x))),
        (IntConv::F32ReinterpretI32, Val::I32(x)) => Ok(Val::F32(u32_of(x))),
        (IntConv::F64ReinterpretI64, Val::I64(x)) => Ok(Val::F64(u64_of(x))),
        _ => Err(Error::WrongValType),
    }
}

/// The instructions that read and write the operand stack and nothing else.
pub open spec fn spec_is_pure(inst: Inst) -> bool {
    match inst {
        Inst::Nop | Inst::Drop | Inst::Select | Inst::I32Const(_) | Inst::I64Const(_)
        | Inst::F32Const(_) | Inst::F64Const(_) | Inst::I32Eqz | Inst::I64Eqz | Inst::I32Compare(_)
        | Inst::I64Compare(_) | Inst::I32Unary(_) | Inst::I64Unary(_) | Inst::I32Binary(_)
        | Inst::I64Binary(_) | Inst::Convert(_) => true,
        _ => false,
    }
}

/// The operand stack after an instruction that touches nothing else, or the
/// trap. `select` takes the condition, then the second operand, then the
/// first, and keeps the first if the condition is not zero; its operands are
/// of one kind.
pub open spec fn spec_pure(inst: Inst, st: Seq<Val>) -> Result<Seq<Val>, Error> {
    match inst {
        Inst::Drop => match spec_pop(st) {
            Err(e) => Err(e),
            Ok((rest, _)) => Ok(rest),
        },
        Inst::Select => match spec_pop_i32(st) {
            Err(e) => Err(e),
            Ok((s1, c)) => match spec_pop(s1) {
                Err(e) => Err(e),
                Ok((s2, v2)) => match spec_pop(s2) {
                    Err(e) => Err(e),
                    Ok((s3, v1)) => if v1.spec_kind() != v2.spec_kind() {
                        Err(Error::WrongValType)
                    } else if c != 0 {
                        Ok(s3.push(v1))
                    } else {
                        Ok(s3.push(v2))
                    },
                },
            },
        },
        Inst::I32Const(v) => Ok(st.push(Val::I32(v))),
        Inst::I64Const(v) => Ok(st.push(Val::I64(v))),
        Inst::F32Const(v) => Ok(st.push(Val::F32(v))),
        Inst::F64Const(v) => Ok(st.push(Val::F64(v))),
        Inst::I32Eqz => match spec_pop_i32(st) {
            Err(e) => Err(e),
            Ok((rest, a)) => Ok(rest.push(spec_flag(a == 0))),
        },
        Inst::I64Eqz => match spec_pop_i64(st) {
            Err(e) => Err(e),
            Ok((rest, a)) => Ok(rest.push(spec_flag(a == 0))),
        },
        Inst::I32Compare(op) => match spec_pop2_i32(st) {
            Err(e) => Err(e),
            Ok((rest, a, b)) => Ok(rest.push(spec_flag(spec_i32_relop(op, a, b)))),
        },
        Inst::I64Compare(op) => match spec_pop2_i64(st) {
            Err(e) => Err(e),
            Ok((rest, a, b)) => Ok(rest.push(spec_flag(spec_i64_relop(op, a, b)))),
        },
        Inst::I32Unary(op) => match spec_pop_i32(st) {
            Err(e) => Err(e),
            Ok((rest, a)) => Ok(rest.push(Val::I32(spec_i32_unop(op, a)))),
        },
        Inst::I64Unary(op) => match spec_pop_i64(st) {
            Err(e) => Err(e),
            Ok((rest, a)) => Ok(rest.push(Val::I64(spec_i64_unop(op, a)))),
        },
        Inst::I32Binary(op) => match spec_pop2_i32(st) {
            Err(e) => Err(e),
            Ok((rest, a, b)) => match spec_i32_binop(op, a, b) {
                Err(e) => Err(e),
                Ok(r) => Ok(rest.push(Val::I32(r))),
            },
        },
        Inst::I64Binary(op) => match spec_pop2_i64(st) {
            Err(e) => Err(e),
            Ok((rest, a, b)) => match spec_i64_binop(op, a, b) {
                Err(e) => Err(e),
                Ok(r) => Ok(rest.push(Val::I64(r))),
            },
        },
        Inst::Convert(op) => match spec_pop(st) {
            Err(e) => Err(e),
            Ok((rest, v)) => match spec_convert(op, v) {
                Err(e) => Err(e),
                Ok(r) => Ok(rest.push(r)),
            },
        },
        _ => Ok(st),
    }
}

/// Performs an instruction that touches nothing but the operand stack.
pub(crate) fn exec_pure(inst: &Inst, stack: &mut Stack) -> (r: Result<(), Error>)
    ensures
        match spec_pure(*inst, old(stack)@) {
            Ok(st) => r is Ok && final(stack)@ == st,
            Err(e) => r == Err::<(), Error>(e),
        },
{
    match inst {
        Inst::Drop => {
            stack.pop()?;
        },
        Inst::Select => {
            let c = stack.pop_i32()?;
            let v2 = stack.pop()?;
            let v1 = stack.pop()?;
            if v1.kind() != v2.kind() {
                return Err(Error::WrongValType);
            }
            if c != 0 {
                stack.push(v1);
            } else {
                stack.push(v2);
            }
        },
        Inst::I32Const(v) => stack.push(Val::I32(*v)),
        Inst::I64Const(v) => stack.push(Val::I64(*v)),
        Inst::F32Const(v) => stack.push(Val::F32(*v)),
        Inst::F64Const(v) => stack.push(Val::F64(*v)),
        Inst::I32Eqz => {
            let a = stack.pop_i32()?;
            stack.push(flag(a == 0));
        },
        Inst::I64Eqz => {
            let a = stack.pop_i64()?;
            stack.push(flag(a == 0));
        },
        Inst::I32Compare(op) => {
            let b = stack.pop_i32()?;
            let a = stack.pop_i32()?;
            stack.push(flag(i32_relop(*op, a, b)));
        },
        Inst::I64Compare(op) => {
            let b = stack.pop_i64()?;
            let a = stack.pop_i64()?;
            stack.push(flag(i64_relop(*op, a, b)));
        },
        Inst::I32Unary(op) => {
            let a = stack.pop_i32()?;
            stack.push(Val::I32(i32_unop(*op, a)));
        },
        Inst::I64Unary(op) => {
            let a = stack.pop_i64()?;
            stack.push(Val::I64(i64_unop(*op, a)));
        },
        Inst::I32Binary(op) => {
            let b = stack.pop_i32()?;
            let a = stack.pop_i32()?;
            let r = i32_binop(*op, a, b)?;
            stack.push(Val::I32(r));
        },
        Inst::I64Binary(op) => {
            let b = stack.pop_i64()?;
            let a = stack.pop_i64()?;
            let r = i64_binop(*op, a, b)?;
            stack.push(Val::I64(r));
        },
        Inst::Convert(op) => {
            let v = stack.pop()?;
            let r = convert(*op, v)?;
            stack.push(r);
        },
        _ => {},
    }
    Ok(())
}

/// The operand stack and the locals after an instruction on a local of the
/// frame whose locals begin at `base`, or the error. `local.tee` leaves the
/// stack as it is.
pub open spec fn spec_local(inst: Inst, st: Seq<Val>, locals: Seq<Val>, base: usize) -> Result<
    (Seq<Val>, Seq<Val>),
    Error,
> {
    match inst {
        Inst::LocalGet(idx) => if base + idx.0 < locals.len() {
            Ok((st.push(locals[base + idx.0]), locals))
        } else {
            Err(Error::LocalNotFound)
        },
        Inst::LocalSet(idx) => match spec_pop(st) {
            Err(e) => Err(e),
            Ok((rest, v)) => if base + idx.0 < locals.len() {
                Ok((rest, locals.update(base + idx.0, v)))
            } else {
                Err(Error::LocalNotFound)
            },
        },
        Inst::LocalTee(idx) => if st.len() == 0 {
            Err(Error::StackEmpty)
        } else if base + idx.0 < locals.len() {
            Ok((st, locals.update(base + idx.0, st.last())))
        } else {
            Err(Error::LocalNotFound)
        },
        _ => Ok((st, locals)),
    }
}

/// Performs `local.get`, `local.set` or `local.tee`. On an error the
/// locals are as they were.
pub(crate) fn exec_local(inst: &Inst, stack: &mut Stack, locals: &mut Locals, base: usize) -> (r: Result<
    (),
    Error,
>)
    ensures
        match spec_local(*inst, old(stack)@, old(locals)@, base) {
            Ok((st, ls)) => r is Ok && final(stack)@ == st && final(locals)@ == ls,
            Err(e) => r == Err::<(), Error>(e) && final(locals)@ == old(locals)@,
        },
{
    let n: usize = locals.locals.len();
    match inst {
        Inst::LocalGet(idx) => {
            if base >= n || idx.0 as usize >= n - base {
                return Err(Error::LocalNotFound);
            }
            let v = locals.get(base + idx.0 as usize)?;
            stack.push(v);
        },
        Inst::LocalSet(idx) => {
            let v = stack.pop()?;
            if base >= n || idx.0 as usize >= n - base {
                return Err(Error::LocalNotFound);
            }
            locals.set(base + idx.0 as usize, v)?;
        },
        Inst::LocalTee(idx) => {
            let v = stack.peek()?;
            if base >= n || idx.0 as usize >= n - base {
                return Err(Error::LocalNotFound);
            }
            locals.set(base + idx.0 as usize, v)?;
        },
        _ => {},
    }
    Ok(())
}

/// The store address that index `idx` of an index space stands for, if it
/// names one of the `count` instances of the store.
pub open spec fn spec_resolve(addrs: Seq<usize>, idx: u32, count: nat) -> Result<usize, Error> {
    if idx < addrs.len() && addrs[idx as int] < count {
        Ok(addrs[idx as int])
    } else {
        Err(Error::SegFault)
    }
}

/// The addresses of a module instance's globals, as numbers.
pub open spec fn spec_global_addrs(addrs: Seq<GlobalAddr>) -> Seq<usize> {
    Seq::new(addrs.len(), |i: int| addrs[i].0)
}

/// The addresses of a module instance's memories, as numbers.
pub open spec fn spec_mem_addrs(addrs: Seq<MemAddr>) -> Seq<usize> {
    Seq::new(addrs.len(), |i: int| addrs[i].0)
}

/// The operand stack and the globals after `global.get` or `global.set`, or
/// the error. A global that is not mutable is not written, nor is a value of
/// another kind than the global's.
pub open spec fn spec_global(
    inst: Inst,
    st: Seq<Val>,
    globals: Seq<GlobalInst>,
    addrs: Seq<GlobalAddr>,
) -> Result<(Seq<Val>, Seq<GlobalInst>), Error> {
    match inst {
        Inst::GlobalGet(idx) => match spec_resolve(spec_global_addrs(addrs), idx.0, globals.len()) {
            Err(e) => Err(e),
            Ok(a) => Ok((st.push(globals[a as int].value), globals)),
        },
        Inst::GlobalSet(idx) => match spec_pop(st) {
            Err(e) => Err(e),
            Ok((rest, v)) => match spec_resolve(spec_global_addrs(addrs), idx.0, globals.len()) {
                Err(e) => Err(e),
                Ok(a) => if !globals[a as int].typ.mutable {
                    Err(Error::ImmutableGlobal)
                } else if globals[a as int].typ.t != v.spec_kind() {
                    Err(Error::WrongValType)
                } else {
                    Ok((rest, globals.update(a as int, GlobalInst { typ: globals[a as int].typ, value: v })))
                },
            },
        },
        _ => Ok((st, globals)),
    }
}

/// Performs `global.get` or `global.set`. On an error the globals are as
/// they were.
pub(crate) fn exec_global(
    inst: &Inst,
    stack: &mut Stack,
    globals: &mut Vec<GlobalInst>,
    addrs: &Vec<GlobalAddr>,
) -> (r: Result<(), Error>)
    ensures
        match spec_global(*inst, old(stack)@, old(globals)@, addrs@) {
            Ok((st, gs)) => r is Ok && final(stack)@ == st && final(globals)@ == gs,
            Err(e) => r == Err::<(), Error>(e) && final(globals)@ == old(globals)@,
        },
{
    match inst {
        Inst::GlobalGet(idx) => {
            if idx.0 as usize >= addrs.len() {
                return Err(Error::SegFault);
            }
            let a: usize = addrs[idx.0 as usize].0;
            if a >= globals.len() {
                return Err(Error::SegFault);
            }
            stack.push(globals[a].value);
        },
        Inst::GlobalSet(idx) => {
            let v = stack.pop()?;
            if idx.0 as usize >= addrs.len() {
                return Err(Error::SegFault);
            }
            let a: usize = addrs[idx.0 as usize].0;
            if a >= globals.len() {
                return Err(Error::SegFault);
            }
            let typ = globals[a].typ;
            if !typ.mutable {
                return Err(Error::ImmutableGlobal);
            }
            if typ.t != v.kind() {
                return Err(Error::WrongValType);
            }
            globals[a] = GlobalInst { typ, value: v };
        },
        _ => {},
    }
    Ok(())
}

impl LoadOp {
    /// The number of bytes that the load reads.
    pub open spec fn spec_width(self) -> u64 {
        match self {
            LoadOp::I32Load8S | LoadOp::I32Load8U | LoadOp::I64Load8S | LoadOp::I64Load8U => 1,
            LoadOp::I32Load16S | LoadOp::I32Load16U | LoadOp::I64Load16S | LoadOp::I64Load16U => 2,
            LoadOp::I32Load | LoadOp::F32Load | LoadOp::I64Load32S | LoadOp::I64Load32U => 4,
            LoadOp::I64Load | LoadOp::F64Load => 8,
        }
    }

    /// The value that the load makes of the number read: a signed narrow
    /// load extends the sign, an unsigned one extends with zeros.
    pub open spec fn spec_value(self, raw: u64) -> Val {
        match self {
            LoadOp::I32Load => Val::I32(spec_wrap32(raw as int)),
            LoadOp::I64Load => Val::I64(spec_wrap64(raw as int)),
            LoadOp::F32Load => Val::F32((raw % 0x1_0000_0000) as u32),
            LoadOp::F64Load => Val::F64(raw),
            LoadOp::I32Load8S => Val::I32(spec_sign_extend(raw, 8) as i32),
            LoadOp::I32Load8U => Val::I32((raw % 0x100) as i32),
            LoadOp::I32Load16S => Val::I32(spec_sign_extend(raw, 16) as i32),
            LoadOp::I32Load16U => Val::I32((raw % 0x1_0000) as i32),
            LoadOp::I64Load8S => Val::I64(spec_sign_extend(raw, 8) as i64),
            LoadOp::I64Load8U => Val::I64((raw % 0x100) as i64),
            LoadOp::I64Load16S => Val::I64(spec_sign_extend(raw, 16) as i64),
            LoadOp::I64Load16U => Val::I64((raw % 0x1_0000) as i64),
            LoadOp::I64Load32S => Val::I64(spec_sign_extend(raw, 32) as i64),
            LoadOp::I64Load32U => Val::I64((raw % 0x1_0000_0000) as i64),
        }
    }

    pub fn width(self) -> (n: u64)
        ensures
            n == self.spec_width(),
            n == 1 || n == 2 || n == 4 || n == 8,
    {
        match self {
            LoadOp::I32Load8S | LoadOp::I32Load8U | LoadOp::I64Load8S | LoadOp::I64Load8U => 1,
            LoadOp::I32Load16S | LoadOp::I32Load16U | LoadOp::I64Load16S | LoadOp::I64Load16U => 2,
            LoadOp::I32Load | LoadOp::F32Load | LoadOp::I64Load32S | LoadOp::I64Load32U => 4,
            LoadOp::I64Load | LoadOp::F64Load => 8,
        }
    }

    pub fn value(self, raw: u64) -> (v: Val)
        ensures
            v == self.spec_value(raw),
    {
        match self {
            LoadOp::I32Load => Val::I32(i32_of((raw % 0x1_0000_0000) as u32)),
            LoadOp::I64Load => Val::I64(i64_of(raw)),
            LoadOp::F32Load => Val::F32((raw % 0x1_0000_0000) as u32),
            LoadOp::F64Load => Val::F64(raw),
            LoadOp::I32Load8S => Val::I32(sign_extend(raw, 8) as i32),
            LoadOp::I32Load8U => Val::I32((raw % 0x100) as i32),
            LoadOp::I32Load16S => Val::I32(sign_extend(raw, 16) as i32),
            LoadOp::I32Load16U => Val::I32((raw % 0x1_0000) as i32),
            LoadOp::I64Load8S => Val::I64(sign_extend(raw, 8)),
            LoadOp::I64Load8U => Val::I64((raw % 0x100) as i64),
            LoadOp::I64Load16S => Val::I64(sign_extend(raw, 16)),
            LoadOp::I64Load16U => Val::I64((raw % 0x1_0000) as i64),
            LoadOp::I64Load32S => Val::I64(sign_extend(raw, 32)),
            LoadOp::I64Load32U => Val::I64((raw % 0x1_0000_0000) as i64),
        }
    }
}

/// The low `bits` bits of `raw`, read as a signed number; `bits` is 8, 16
/// or 32.
pub open spec fn spec_sign_extend(raw: u64, bits: u32) -> int {
    let range: int = if bits == 8 {
        0x100
    } else if bits == 16 {
        0x1_0000
    } else {
        0x1_0000_0000
    };
    let low = raw as int % range;
    if 2 * low >= range {
        low - range
    } else {
        low
    }
}

pub fn sign_extend(raw: u64, bits: u32) -> (r: i64)
    ensures
        r == spec_sign_extend(raw, bits),
        bits == 8 ==> -0x80 <= r < 0x80,
        bits == 16 ==> -0x8000 <= r < 0x8000,
        -0x8000_0000 <= r < 0x8000_0000,
{
    let range: u64 = if bits == 8 {
        0x100
    } else if bits == 16 {
        0x1_0000
    } else {
        0x1_0000_0000
    };
    let low: u64 = raw % range;
    if 2 * low >= range {
        low as i64 - range as i64
    } else {
        low as i64
    }
}

impl StoreOp {
    /// The number of bytes that the store writes.
    pub open spec fn spec_width(self) -> u64 {
        match self {
            StoreOp::I32Store8 | StoreOp::I64Store8 => 1,
            StoreOp::I32Store16 | StoreOp::I64Store16 => 2,
            StoreOp::I32Store | StoreOp::F32Store | StoreOp::I64Store32 => 4,
            StoreOp::I64Store | StoreOp::F64Store => 8,
        }
    }

    /// The bits of the operand, as an unsigned number; the store writes the
    /// low bytes of it. A value of another kind than the store takes is an
    /// error.
    pub open spec fn spec_raw(self, v: Val) -> Result<u64, Error> {
        match (self, v) {
            (StoreOp::I32Store, Val::I32(x)) | (StoreOp::I32Store8, Val::I32(x)) | (
                StoreOp::I32Store16,
                Val::I32(x),
            ) => Ok(spec_u32_of(x) as u64),
            (StoreOp::I64Store, Val::I64(x)) | (StoreOp::I64Store8, Val::I64(x)) | (
                StoreOp::I64Store16,
                Val::I64(x),
            ) | (StoreOp::I64Store32, Val::I64(x)) => Ok(spec_u64_of(x) as u64),
            (StoreOp::F32Store, Val::F32(x)) => Ok(x as u64),
            (StoreOp::F64Store, Val::F64(x)) => Ok(x),
            _ => Err(Error::WrongValType),
        }
    }

    pub fn width(self) -> (n: u64)
        ensures
            n == self.spec_width(),
            n == 1 || n == 2 || n == 4 || n == 8,
    {
        match self {
            StoreOp::I32Store8 | StoreOp::I64Store8 => 1,
            StoreOp::I32Store16 | StoreOp::I64Store16 => 2,
            StoreOp::I32Store | StoreOp::F32Store | StoreOp::I64Store32 => 4,
            StoreOp::I64Store | StoreOp::F64Store => 8,
        }
    }

    pub fn raw(self, v: Val) -> (r: Result<u64, Error>)
        ensures
            r == self.spec_raw(v),
    {
        match (self, v) {
            (StoreOp::I32Store, Val::I32(x)) | (StoreOp::I32Store8, Val::I32(x)) | (
                StoreOp::I32Store16,
                Val::I32(x),
            ) => Ok(u32_of(x) as u64),
            (StoreOp::I64Store, Val::I64(x)) | (StoreOp::I64Store8, Val::I64(x)) | (
                StoreOp::I64Store16,
                Val::I64(x),
            ) | (StoreOp::I64Store32, Val::I64(x)) => Ok(u64_of(x)),
            (StoreOp::F32Store, Val::F32(x)) => Ok(x as u64),
            (StoreOp::F64Store, Val::F64(x)) => Ok(x),
            _ => Err(Error::WrongValType),
        }
    }
}

/// Whether an alignment hint, the binary logarithm of a byte count, is at
/// most the width of the access.
pub open spec fn spec_aligned(align: u32, width: u64) -> bool {
    if width == 1 {
        align == 0
    } else if width == 2 {
        align <= 1
    } else if width == 4 {
        align <= 2
    } else {
        align <= 3
    }
}

pub fn aligned(align: u32, width: u64) -> (r: bool)
    ensures
        r == spec_aligned(align, width),
{
    if width == 1 {
        align == 0
    } else if width == 2 {
        align <= 1
    } else if width == 4 {
        align <= 2
    } else {
        align <= 3
    }
}

/// The effective address of an access: the base, read as unsigned, plus the
/// constant offset. An address that does not fit in 32 bits is out of
/// bounds.
pub open spec fn spec_effective_address(base: i32, memarg: MemArg, width: u64) -> Result<
    u64,
    Error,
> {
    let ea = spec_u32_of(base) + memarg.offset;
    if ea > u32::MAX {
        Err(Error::MemoryOutOfBounds { addr: ea as u64, len: width })
    } else {
        Ok(ea as u64)
    }
}

/// Takes the base off the stack and computes the effective address of an
/// access of `width` bytes.
pub(crate) fn effective_address(stack: &mut Stack, memarg: MemArg, width: u64) -> (r: Result<u64, Error>)
    ensures
        match spec_pop_i32(old(stack)@) {
            Err(e) => r == Err::<u64, Error>(e),
            Ok((rest, base)) => r == spec_effective_address(base, memarg, width) && final(stack)@
                == rest,
        },
{
    let base = stack.pop_i32()?;
    let ea: u64 = u32_of(base) as u64 + memarg.offset as u64;
    if ea > u32::MAX as u64 {
        return Err(Error::MemoryOutOfBounds { addr: ea, len: width });
    }
    Ok(ea)
}

/// The operand stack and the memories after a memory instruction of a module
/// instance whose memories have the addresses `addrs`, or the trap. Every
/// access goes to the instance's first memory. A load or store of `n` bytes
/// at effective address `ea` traps unless `ea + n` is at most the length of
/// the memory; `memory.grow` leaves -1 where the memory cannot grow, and
/// then changes nothing.
pub open spec fn spec_memory(inst: Inst, st: Seq<Val>, mems: Seq<MemView>, addrs: Seq<MemAddr>) -> Result<
    (Seq<Val>, Seq<MemView>),
    Error,
> {
    match spec_resolve(spec_mem_addrs(addrs), 0, mems.len()) {
        Err(e) => Err(e),
        Ok(a) => {
            let mem = mems[a as int];
            match inst {
                Inst::Load(op, memarg) => if !spec_aligned(memarg.align, op.spec_width()) {
                    Err(Error::InvalidAlignment)
                } else {
                    match spec_pop_i32(st) {
                        Err(e) => Err(e),
                        Ok((rest, base)) => match spec_effective_address(
                            base,
                            memarg,
                            op.spec_width(),
                        ) {
                            Err(e) => Err(e),
                            Ok(ea) => match mem.spec_read(ea, op.spec_width()) {
                                Err(e) => Err(e),
                                Ok(raw) => Ok((rest.push(op.spec_value(raw)), mems)),
                            },
                        },
                    }
                },
                Inst::Store(op, memarg) => if !spec_aligned(memarg.align, op.spec_width()) {
                    Err(Error::InvalidAlignment)
                } else {
                    match spec_pop(st) {
                        Err(e) => Err(e),
                        Ok((s1, v)) => match op.spec_raw(v) {
                            Err(e) => Err(e),
                            Ok(raw) => match spec_pop_i32(s1) {
                                Err(e) => Err(e),
                                Ok((rest, base)) => match spec_effective_address(
                                    base,
                                    memarg,
                                    op.spec_width(),
                                ) {
                                    Err(e) => Err(e),
                                    Ok(ea) => match mem.spec_write(ea, op.spec_width(), raw) {
                                        Err(e) => Err(e),
                                        Ok(m) => Ok((rest, mems.update(a as int, m))),
                                    },
                                },
                            },
                        },
                    }
                },
                Inst::MemorySize => Ok((st.push(Val::I32(spec_wrap32(mem.pages()))), mems)),
                Inst::MemoryGrow => match spec_pop_i32(st) {
                    Err(e) => Err(e),
                    Ok((rest, delta)) => if mem.can_grow(spec_u32_of(delta) as u32) {
                        Ok(
                            (
                                rest.push(Val::I32(spec_wrap32(mem.pages()))),
                                mems.update(a as int, mem.spec_grow(spec_u32_of(delta) as u32)),
                            ),
                        )
                    } else {
                        Ok((rest.push(Val::I32(-1i32)), mems))
                    },
                },
                _ => Ok((st, mems)),
            }
        },
    }
}

/// The size in pages as the `i32` that `memory.size` leaves.
fn pages_value(pages: usize) -> (v: Val)
    ensures
        v == Val::I32(spec_wrap32(pages as int)),
{
    Val::I32(i32_of((pages as u64 % 0x1_0000_0000) as u32))
}

/// Performs a load, a store, `memory.size` or `memory.grow`. On a trap the
/// memories are as they were.
pub(crate) fn exec_memory(
    inst: &Inst,
    stack: &mut Stack,
    mems: &mut Vec<MemInstInner>,
    addrs: &Vec<MemAddr>,
) -> (r: Result<(), Error>)
    ensures
        match spec_memory(*inst, old(stack)@, mems_view(old(mems)@), addrs@) {
            Ok((st, ms)) => r is Ok && final(stack)@ == st && mems_view(final(mems)@) == ms,
            Err(e) => r == Err::<(), Error>(e) && mems_view(final(mems)@) == mems_view(
                old(mems)@,
            ),
        },
{
    if addrs.len() == 0 {
        return Err(Error::SegFault);
    }
    let a: usize = addrs[0].0;
    if a >= mems.len() {
        return Err(Error::SegFault);
    }
    assert(mems_view(mems@)[a as int] == mems@[a as int]@);
    match inst {
        Inst::Load(op, memarg) => {
            let width = op.width();
            if !aligned(memarg.align, width) {
                return Err(Error::InvalidAlignment);
            }
            let ea = effective_address(stack, *memarg, width)?;
            let raw = mems[a].read(ea, width)?;
            stack.push(op.value(raw));
        },
        Inst::Store(op, memarg) => {
            let width = op.width();
            if !aligned(memarg.align, width) {
                return Err(Error::InvalidAlignment);
            }
            let v = stack.pop()?;
            let raw = op.raw(v)?;
            let ea = effective_address(stack, *memarg, width)?;
            mems[a].write(ea, width, raw)?;
            assert(mems_view(mems@) =~= mems_view(old(mems)@).update(a as int, mems@[a as int]@));
        },
        Inst::MemorySize => {
            stack.push(pages_value(mems[a].pages()));
        },
        Inst::MemoryGrow => {
            let delta = stack.pop_i32()?;
            match mems[a].grow(u32_of(delta)) {
                Some(pages) => {
                    stack.push(pages_value(pages));
                    assert(mems_view(mems@) =~= mems_view(old(mems)@).update(
                        a as int,
                        mems@[a as int]@,
                    ));
                },
                None => {
                    stack.push(Val::I32(-1));
                    assert(mems_view(mems@) =~= mems_view(old(mems)@));
                },
            }
        },
        _ => {},
    }
    Ok(())
}

/// `local.tee` is `local.set` followed by `local.get` of the same local:
/// the two leave the same stack and the same locals, or fail alike.
pub proof fn lemma_tee_is_set_then_get(idx: crate::repr::LocalIdx, st: Seq<Val>, locals: Seq<Val>, base: usize)
    ensures
        spec_local(Inst::LocalTee(idx), st, locals, base) == match spec_local(
            Inst::LocalSet(idx),
            st,
            locals,
            base,
        ) {
            Err(e) => Err(e),
            Ok((st1, ls1)) => spec_local(Inst::LocalGet(idx), st1, ls1, base),
        },
{
    if st.len() > 0 && base + idx.0 < locals.len() {
        let ls1 = locals.update(base + idx.0, st.last());
        assert(st.drop_last().push(ls1[base + idx.0]) =~= st);
    }
}

/// `select` on two operands of one kind leaves the first if the condition
/// is not zero and the second if it is.
pub proof fn lemma_select_chooses(st: Seq<Val>, v1: Val, v2: Val, c: i32)
    requires
        v1.spec_kind() == v2.spec_kind(),
    ensures
        spec_pure(Inst::Select, st.push(v1).push(v2).push(Val::I32(c))) == Ok::<Seq<Val>, Error>(
            st.push(if c != 0 { v1 } else { v2 }),
        ),
{
    let s3 = st.push(v1).push(v2).push(Val::I32(c));
    assert(s3.drop_last() =~= st.push(v1).push(v2));
    assert(s3.drop_last().drop_last() =~= st.push(v1));
    assert(s3.drop_last().drop_last().drop_last() =~= st);
}

/// A load or store that does not trap lies within the memory: its
/// effective address plus its width is at most the memory's length.
pub proof fn lemma_access_in_bounds(inst: Inst, st: Seq<Val>, mems: Seq<MemView>, addrs: Seq<MemAddr>)
    requires
        inst is Load || inst is Store,
        spec_memory(inst, st, mems, addrs) is Ok,
    ensures
        ({
            let a = spec_resolve(spec_mem_addrs(addrs), 0, mems.len())->Ok_0;
            let (memarg, width) = match inst {
                Inst::Load(op, memarg) => (memarg, op.spec_width()),
                Inst::Store(op, memarg) => (memarg, op.spec_width()),
                _ => arbitrary(),
            };
            let base = match inst {
                Inst::Load(_, _) => spec_pop_i32(st)->Ok_0.1,
                _ => spec_pop_i32(st.drop_last())->Ok_0.1,
            };
            spec_u32_of(base) + memarg.offset + width <= mems[a as int].data.len()
        }),
{
}

/// `memory.grow` by zero pages, on a memory within its bound, leaves the
/// size in pages and the memories as they are.
pub proof fn lemma_grow_zero(st: Seq<Val>, mems: Seq<MemView>, addrs: Seq<MemAddr>)
    requires
        spec_resolve(spec_mem_addrs(addrs), 0, mems.len()) matches Ok(a) && mems[a as int].wf(),
    ensures
        spec_memory(Inst::MemoryGrow, st.push(Val::I32(0)), mems, addrs) == Ok::<
            (Seq<Val>, Seq<MemView>),
            Error,
        >(
            (
                st.push(
                    Val::I32(
                        spec_wrap32(
                            mems[spec_resolve(spec_mem_addrs(addrs), 0, mems.len())->Ok_0 as int].pages(),
                        ),
                    ),
                ),
                mems,
            ),
        ),
        spec_memory(Inst::MemoryGrow, st.push(Val::I32(0)), mems, addrs) == spec_memory(
            Inst::MemorySize,
            st,
            mems,
            addrs,
        ),
{
    let a = spec_resolve(spec_mem_addrs(addrs), 0, mems.len())->Ok_0;
    let mem = mems[a as int];
    assert(st.push(Val::I32(0)).drop_last() =~= st);
    assert(mem.spec_grow(0).data =~= mem.data);
    assert(mems.update(a as int, mem.spec_grow(0)) =~= mems);
}

/// Where `memory.grow` cannot grow the memory it leaves -1 and changes no
/// memory.
pub proof fn lemma_grow_failure(st: Seq<Val>, delta: i32, mems: Seq<MemView>, addrs: Seq<MemAddr>)
    requires
        spec_resolve(spec_mem_addrs(addrs), 0, mems.len()) matches Ok(a) && !mems[a as int].can_grow(
            spec_u32_of(delta) as u32,
        ),
    ensures
        spec_memory(Inst::MemoryGrow, st.push(Val::I32(delta)), mems, addrs) == Ok::<
            (Seq<Val>, Seq<MemView>),
            Error,
        >((st.push(Val::I32(-1i32)), mems)),
{
    assert(st.push(Val::I32(delta)).drop_last() =~= st);
}

/// Performs `global.get` where the globals may only be read.
pub fn read_global(
    idx: crate::repr::GlobalIdx,
    stack: &mut Stack,
    globals: &Vec<GlobalInst>,
    addrs: &Vec<GlobalAddr>,
) -> (r: Result<(), Error>)
    ensures
        match spec_global(Inst::GlobalGet(idx), old(stack)@, globals@, addrs@) {
            Ok((st, _)) => r is Ok && final(stack)@ == st,
            Err(e) => r == Err::<(), Error>(e) && final(stack)@ == old(stack)@,
        },
{
    if idx.0 as usize >= addrs.len() {
        return Err(Error::SegFault);
    }
    let a: usize = addrs[idx.0 as usize].0;
    if a >= globals.len() {
        return Err(Error::SegFault);
    }
    stack.push(globals[a].value);
    Ok(())
}

/// Whether an instruction reads and writes the operand stack and nothing
/// else.
pub fn is_pure(inst: &Inst) -> (r: bool)
    ensures
        r == spec_is_pure(*inst),
{
    match inst {
        Inst::Nop | Inst::Drop | Inst::Select | Inst::I32Const(_) | Inst::I64Const(_)
        | Inst::F32Const(_) | Inst::F64Const(_) | Inst::I32Eqz | Inst::I64Eqz | Inst::I32Compare(_)
        | Inst::I64Compare(_) | Inst::I32Unary(_) | Inst::I64Unary(_) | Inst::I32Binary(_)
        | Inst::I64Binary(_) | Inst::Convert(_) => true,
        _ => false,
    }
}

} // verus!
