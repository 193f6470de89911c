//! The decoder of the binary format: a module is read from bytes.
use vstd::prelude::*;
use vstd::utf8::{decode_utf8, valid_utf8};
use crate::instance::{le_read, spec_le_decode, spec_pow256};
use crate::repr::{
    lemma_deep_nested, spec_deep, valtype_of_byte, BlockType, Data, DataView, Datamode,
    DatamodeView, Elem, ElemMode, ElemModeView, ElemView, Export, ExportDesc, ExportView, Expr,
    FloatBinop, FloatConv, FloatOp, FloatRelop, FloatUnop, Func, FuncIdx, FuncType, FuncView,
    Global, GlobalIdx, GlobalType, GlobalView, Import, ImportDesc, ImportView, Inst, InstView,
    IntBinop, IntConv, IntRelop, IntUnop, LabelIdx, Limits, LoadOp, LocalIdx, Locals, MemArg,
    MemIdx, MemType, Module, ModuleView, Reftype, ResultType, SectionId, StoreOp, TableIdx,
    TableType, TypeIdx, ValType,
};

verus! {

/// What is wrong with the bytes.
#[derive(Debug, Copy, Clone, PartialEq, Eq, Structural)]
pub enum DecodeErrorKind {
    /// The first four bytes are not the magic number.
    InvalidMagic,
    /// The version is not 1.
    InvalidVersion,
    /// The bytes end where more are needed.
    UnexpectedEof,
    /// An integer is longer than its width allows, or does not fit it.
    InvalidLeb128,
    UnknownOpcode(u8),
    InvalidSectionId(u8),
    InvalidValType(u8),
    /// A name is not UTF-8.
    InvalidUtf8,
    /// A section or a function body is not as long as it says.
    SizeMismatch,
    /// A byte that selects among alternatives selects none.
    Malformed,
}

/// A failure to decode, with the offset of the byte at which it was found.
#[derive(Debug, Copy, Clone, PartialEq, Eq, Structural)]
pub struct DecodeError {
    pub kind: DecodeErrorKind,
    pub offset: usize,
}

/// The failure of kind `kind` at `offset`.
pub open spec fn spec_fail(kind: DecodeErrorKind, offset: int) -> DecodeError {
    DecodeError { kind, offset: offset as usize }
}

/// 128 to the power `n`.
pub open spec fn spec_pow128(n: nat) -> nat
    decreases n,
{
    if n == 0 {
        1
    } else {
        128 * spec_pow128((n - 1) as nat)
    }
}

/// The number that the bytes from `pos` on denote in LEB128, and how many
/// bytes it takes: each byte gives seven bits, least significant first, and
/// all but the last byte have the high bit set. At most `max` bytes are
/// read: a number that goes on after them is an error, and so is one that
/// the bytes end in.
pub open spec fn spec_leb(bytes: Seq<u8>, pos: int, max: nat) -> Result<(nat, nat), DecodeError>
    decreases max,
{
    if max == 0 {
        Err(spec_fail(DecodeErrorKind::InvalidLeb128, pos))
    } else if pos < 0 || pos >= bytes.len() {
        Err(spec_fail(DecodeErrorKind::UnexpectedEof, bytes.len() as int))
    } else if bytes[pos] < 128 {
        Ok((bytes[pos] as nat, 1))
    } else {
        match spec_leb(bytes, pos + 1, (max - 1) as nat) {
            Err(e) => Err(e),
            Ok((v, n)) => Ok((((bytes[pos] - 128) + 128 * v) as nat, n + 1)),
        }
    }
}

/// A LEB128 number of `n` bytes is below 128 to the `n`, and `n` is between
/// 1 and the most bytes allowed.
pub proof fn lemma_leb_bound(bytes: Seq<u8>, pos: int, max: nat)
    requires
        spec_leb(bytes, pos, max) is Ok,
    ensures
        ({
            let (v, n) = spec_leb(bytes, pos, max)->Ok_0;
            &&& 1 <= n <= max
            &&& pos + n <= bytes.len()
            &&& v < spec_pow128(n)
            &&& bytes[pos + n - 1] < 128
        }),
    decreases max,
{
    reveal_with_fuel(spec_pow128, 2);
    if bytes[pos] >= 128 {
        lemma_leb_bound(bytes, pos + 1, (max - 1) as nat);
        let (v, n) = spec_leb(bytes, pos + 1, (max - 1) as nat)->Ok_0;
        assert(spec_pow128(n + 1) == 128 * spec_pow128(n));
    }
}

/// An unsigned number that goes on past its greatest width is an error:
/// where each of the `max` bytes from `pos` on has its high bit set, no
/// number is read.
pub proof fn lemma_leb_overlong(bytes: Seq<u8>, pos: int, max: nat)
    requires
        0 <= pos,
        pos + max <= bytes.len(),
        forall|i: int| pos <= i < pos + max ==> bytes[i] >= 128,
    ensures
        spec_leb(bytes, pos, max) == Err::<(nat, nat), DecodeError>(
            spec_fail(DecodeErrorKind::InvalidLeb128, pos + max),
        ),
        max == 5 ==> spec_u32(bytes, pos) is Err,
    decreases max,
{
    if max > 0 {
        lemma_leb_overlong(bytes, pos + 1, (max - 1) as nat);
    }
}

/// The unsigned 32-bit number at `pos` and the position after it: at most
/// five bytes, and a value that fits.
pub open spec fn spec_u32(bytes: Seq<u8>, pos: int) -> Result<(u32, int), DecodeError> {
    match spec_leb(bytes, pos, 5) {
        Err(e) => Err(e),
        Ok((v, n)) => if v <= u32::MAX {
            Ok((v as u32, pos + n))
        } else {
            Err(spec_fail(DecodeErrorKind::InvalidLeb128, pos))
        },
    }
}

/// The signed number of `bits` bits at `pos` and the position after it: at
/// most `max` bytes; the sign is bit 6 of the last byte; the value fits.
pub open spec fn spec_signed(bytes: Seq<u8>, pos: int, max: nat, bits: nat) -> Result<
    (int, int),
    DecodeError,
> {
    match spec_leb(bytes, pos, max) {
        Err(e) => Err(e),
        Ok((v, n)) => {
            let value = if bytes[pos + n - 1] >= 64 {
                v - spec_pow128(n)
            } else {
                v as int
            };
            if -spec_pow2(bits) <= 2 * value < spec_pow2(bits) {
                Ok((value, pos + n))
            } else {
                Err(spec_fail(DecodeErrorKind::InvalidLeb128, pos))
            }
        },
    }
}

/// Two to the power `n`, for the widths 32, 33 and 64.
pub open spec fn spec_pow2(n: nat) -> int {
    if n == 32 {
        0x1_0000_0000
    } else if n == 33 {
        0x2_0000_0000
    } else {
        0x1_0000_0000_0000_0000
    }
}

/// The byte at `pos` and the position after it.
pub open spec fn spec_byte(bytes: Seq<u8>, pos: int) -> Result<(u8, int), DecodeError> {
    if 0 <= pos < bytes.len() {
        Ok((bytes[pos], pos + 1))
    } else {
        Err(spec_fail(DecodeErrorKind::UnexpectedEof, bytes.len() as int))
    }
}

/// The number that the `n` bytes at `pos` denote, least significant byte
/// first, and the position after them.
pub open spec fn spec_fixed(bytes: Seq<u8>, pos: int, n: nat) -> Result<(u64, int), DecodeError> {
    if 0 <= pos && pos + n <= bytes.len() {
        Ok((spec_le_decode(bytes.subrange(pos, pos + n)) as u64, pos + n))
    } else {
        Err(spec_fail(DecodeErrorKind::UnexpectedEof, bytes.len() as int))
    }
}

/// The decoder: the bytes and the position of the next byte to read.
#[derive(Debug)]
pub struct Parser<'a> {
    pub stream: &'a [u8],
    pub pos: usize,
}

impl<'a> Parser<'a> {
    /// A decoder at the first of the bytes.
    pub fn new(stream: &'a [u8]) -> (p: Self)
        ensures
            p.stream@ == stream@,
            p.pos == 0,
    {
        Parser { stream, pos: 0 }
    }

    /// The positions that a decoder can be at.
    pub open spec fn wf(&self) -> bool {
        self.pos <= self.stream@.len()
    }

    /// The failure of kind `kind` at `offset`.
    pub fn fail(kind: DecodeErrorKind, offset: usize) -> (e: DecodeError)
        ensures
            e == spec_fail(kind, offset as int),
    {
        DecodeError { kind, offset }
    }

    /// Reads one byte.
    pub fn parse_byte(&mut self) -> (r: Result<u8, DecodeError>)
        requires
            old(self).wf(),
        ensures
            final(self).stream == old(self).stream,
            final(self).wf(),
            final(self).pos >= old(self).pos,
            match spec_byte(old(self).stream@, old(self).pos as int) {
                Ok((b, next)) => r == Ok::<u8, DecodeError>(b) && final(self).pos == next,
                Err(e) => r == Err::<u8, DecodeError>(e) && final(self).pos == old(self).pos,
            },
    {
        if self.pos < self.stream.len() {
            let b = self.stream[self.pos];
            self.pos = self.pos + 1;
            Ok(b)
        } else {
            Err(Self::fail(DecodeErrorKind::UnexpectedEof, self.stream.len()))
        }
    }

    /// The next byte, which stays unread.
    pub fn peek_byte(&self) -> (r: Result<u8, DecodeError>)
        requires
            self.wf(),
        ensures
            match spec_byte(self.stream@, self.pos as int) {
                Ok((b, _)) => r == Ok::<u8, DecodeError>(b) && self.pos < usize::MAX,
                Err(e) => r == Err::<u8, DecodeError>(e),
            },
    {
        if self.pos < self.stream.len() {
            Ok(self.stream[self.pos])
        } else {
            Err(Self::fail(DecodeErrorKind::UnexpectedEof, self.stream.len()))
        }
    }

    /// Reads `count` bytes.
    pub fn read_bytes(&mut self, count: usize) -> (r: Result<Vec<u8>, DecodeError>)
        requires
            old(self).wf(),
        ensures
            final(self).stream == old(self).stream,
            final(self).wf(),
            final(self).pos >= old(self).pos,
            old(self).pos + count <= old(self).stream@.len() ==> (r matches Ok(v) && v@
                == old(self).stream@.subrange(old(self).pos as int, old(self).pos + count)
                && final(self).pos == old(self).pos + count),
            old(self).pos + count > old(self).stream@.len() ==> r == Err::<Vec<u8>, DecodeError>(
                spec_fail(DecodeErrorKind::UnexpectedEof, old(self).stream@.len() as int),
            ) && final(self).pos == old(self).pos,
    {
        if count > self.stream.len() - self.pos {
            return Err(Self::fail(DecodeErrorKind::UnexpectedEof, self.stream.len()));
        }
        let mut out: Vec<u8> = Vec::new();
        let start: usize = self.pos;
        let mut i: usize = 0;
        while i < count
            invariant
                i <= count,
                start + count <= self.stream@.len() <= usize::MAX,
                out@ == self.stream@.subrange(start as int, start + i),
            decreases count - i,
        {
            out.push(self.stream[start + i]);
            i = i + 1;
            assert(out@ =~= self.stream@.subrange(start as int, start + i));
        }
        self.pos = start + count;
        Ok(out)
    }

    /// Reads a LEB128 number of at most `max` bytes at `pos`, without
    /// moving: the number and how many bytes it takes.
    fn leb(&self, pos: usize, max: usize) -> (r: Result<(u128, usize), DecodeError>)
        requires
            pos <= self.stream@.len(),
            max <= 10,
        ensures
            match r {
                Ok((v, n)) => spec_leb(self.stream@, pos as int, max as nat) == Ok::<
                    (nat, nat),
                    DecodeError,
                >((v as nat, n as nat)) && v < spec_pow128(n as nat) && 1 <= n <= max && pos + n
                    <= self.stream@.len(),
                Err(e) => spec_leb(self.stream@, pos as int, max as nat) == Err::<
                    (nat, nat),
                    DecodeError,
                >(e),
            },
        decreases max,
    {
        if max == 0 {
            return Err(Self::fail(DecodeErrorKind::InvalidLeb128, pos));
        }
        if pos >= self.stream.len() {
            return Err(Self::fail(DecodeErrorKind::UnexpectedEof, self.stream.len()));
        }
        let b = self.stream[pos];
        if b < 128 {
            proof {
                reveal_with_fuel(spec_pow128, 2);
            }
            return Ok((b as u128, 1));
        }
        let (v, n) = self.leb(pos + 1, max - 1)?;
        proof {
            lemma_pow128_bound(n as nat);
            reveal_with_fuel(spec_pow128, 2);
        }
        Ok(((b - 128) as u128 + 128 * v, n + 1))
    }

    /// Reads an unsigned 32-bit number.
    pub fn parse_u32(&mut self) -> (r: Result<u32, DecodeError>)
        requires
            old(self).wf(),
        ensures
            final(self).stream == old(self).stream,
            final(self).wf(),
            final(self).pos >= old(self).pos,
            match spec_u32(old(self).stream@, old(self).pos as int) {
                Ok((v, next)) => r == Ok::<u32, DecodeError>(v) && final(self).pos == next && next
                    > old(self).pos,
                Err(e) => r == Err::<u32, DecodeError>(e) && final(self).pos == old(self).pos,
            },
    {
        let len: usize = self.stream.len();
        let (v, n) = self.leb(self.pos, 5)?;
        if v > u32::MAX as u128 {
            return Err(Self::fail(DecodeErrorKind::InvalidLeb128, self.pos));
        }
        self.pos = self.pos + n;
        Ok(v as u32)
    }

    /// Reads a signed number of `bits` bits, 32, 33 or 64, in at most `max`
    /// bytes.
    fn parse_signed(&mut self, max: usize, bits: u32) -> (r: Result<i64, DecodeError>)
        requires
            old(self).wf(),
            (max == 5 && (bits == 32 || bits == 33)) || (max == 10 && bits == 64),
        ensures
            final(self).stream == old(self).stream,
            final(self).wf(),
            final(self).pos >= old(self).pos,
            match spec_signed(old(self).stream@, old(self).pos as int, max as nat, bits as nat) {
                Ok((v, next)) => r == Ok::<i64, DecodeError>(v as i64) && final(self).pos == next
                    && -spec_pow2(bits as nat) <= 2 * v < spec_pow2(bits as nat) && next > old(
                    self,
                ).pos,
                Err(e) => r == Err::<i64, DecodeError>(e) && final(self).pos == old(self).pos,
            },
    {
        let len: usize = self.stream.len();
        let (v, n) = self.leb(self.pos, max)?;
        proof {
            lemma_leb_bound(self.stream@, self.pos as int, max as nat);
            lemma_pow128_bound(n as nat);
        }
        let last = self.stream[self.pos + n - 1];
        let mut range: i128 = 1;
        let mut k: usize = 0;
        while k < n
            invariant
                k <= n <= 10,
                range == spec_pow128(k as nat),
            decreases n - k,
        {
            proof {
                lemma_pow128_bound(k as nat);
                reveal_with_fuel(spec_pow128, 2);
            }
            range = range * 128;
            k = k + 1;
        }
        let value: i128 = if last >= 64 { v as i128 - range } else { v as i128 };
        let half: i128 = if bits == 32 {
            0x8000_0000
        } else if bits == 33 {
            0x1_0000_0000
        } else {
            0x8000_0000_0000_0000
        };
        if value < -half || value >= half {
            return Err(Self::fail(DecodeErrorKind::InvalidLeb128, self.pos));
        }
        self.pos = self.pos + n;
        Ok(value as i64)
    }

    /// Reads a signed 32-bit number.
    pub fn parse_i32(&mut self) -> (r: Result<i32, DecodeError>)
        requires
            old(self).wf(),
        ensures
            final(self).stream == old(self).stream,
            final(self).wf(),
            final(self).pos >= old(self).pos,
            match spec_signed(old(self).stream@, old(self).pos as int, 5, 32) {
                Ok((v, next)) => r == Ok::<i32, DecodeError>(v as i32) && final(self).pos == next
                    && i32::MIN <= v <= i32::MAX,
                Err(e) => r == Err::<i32, DecodeError>(e) && final(self).pos == old(self).pos,
            },
    {
        let v = self.parse_signed(5, 32)?;
        Ok(v as i32)
    }

    /// Reads a signed 64-bit number.
    pub fn parse_i64(&mut self) -> (r: Result<i64, DecodeError>)
        requires
            old(self).wf(),
        ensures
            final(self).stream == old(self).stream,
            final(self).wf(),
            final(self).pos >= old(self).pos,
            match spec_signed(old(self).stream@, old(self).pos as int, 10, 64) {
                Ok((v, next)) => r == Ok::<i64, DecodeError>(v as i64) && final(self).pos == next
                    && i64::MIN <= v <= i64::MAX,
                Err(e) => r == Err::<i64, DecodeError>(e) && final(self).pos == old(self).pos,
            },
    {
        self.parse_signed(10, 64)
    }

    /// Reads `n` bytes as one number, least significant byte first.
    pub fn parse_fixed(&mut self, n: usize) -> (r: Result<u64, DecodeError>)
        requires
            old(self).wf(),
            n <= 8,
        ensures
            final(self).stream == old(self).stream,
            final(self).wf(),
            final(self).pos >= old(self).pos,
            match spec_fixed(old(self).stream@, old(self).pos as int, n as nat) {
                Ok((v, next)) => r == Ok::<u64, DecodeError>(v) && final(self).pos == next && v
                    < spec_pow256(n as nat),
                Err(e) => r == Err::<u64, DecodeError>(e) && final(self).pos == old(self).pos,
            },
    {
        if n > self.stream.len() - self.pos {
            return Err(Self::fail(DecodeErrorKind::UnexpectedEof, self.stream.len()));
        }
        let v = le_read(self.stream, self.pos, n);
        self.pos = self.pos + n;
        Ok(v)
    }
}

/// The powers of 128 up to the tenth fit in 70 bits.
pub proof fn lemma_pow128_bound(n: nat)
    requires
        n <= 10,
    ensures
        spec_pow128(n) <= 0x40_0000_0000_0000_0000,
        spec_pow128(n) >= 1,
    decreases n,
{
    reveal_with_fuel(spec_pow128, 11);
}

/// The text that bytes spell in UTF-8, if they are UTF-8. This is
/// `String::from_utf8` of the standard library, which gives the string
/// whose bytes these are and fails exactly on bytes that are not UTF-8.
#[verifier::external_body]
pub(crate) fn string_from_utf8(bytes: Vec<u8>) -> (r: Option<String>)
    ensures
        r is Some <==> valid_utf8(bytes@),
        r matches Some(s) ==> s@ == decode_utf8(bytes@),
{
    match String::from_utf8(bytes) {
        Ok(s) => Some(s),
        Err(_) => None,
    }
}

/// A result with one more item in front.
pub open spec fn spec_cons<T>(x: T, r: Result<(Seq<T>, int), DecodeError>) -> Result<
    (Seq<T>, int),
    DecodeError,
> {
    match r {
        Ok((rest, q)) => Ok((seq![x] + rest, q)),
        Err(e) => Err(e),
    }
}

/// A result with the items `acc` in front.
pub open spec fn spec_after<T>(acc: Seq<T>, r: Result<(Seq<T>, int), DecodeError>) -> Result<
    (Seq<T>, int),
    DecodeError,
> {
    match r {
        Ok((s, q)) => Ok((acc + s, q)),
        Err(e) => Err(e),
    }
}

pub proof fn lemma_after_empty<T>(r: Result<(Seq<T>, int), DecodeError>)
    ensures
        spec_after(Seq::<T>::empty(), r) == r,
{
    if let Ok((s, q)) = r {
        assert(Seq::<T>::empty() + s =~= s);
    }
}

pub proof fn lemma_after_step<T>(acc: Seq<T>, x: T, r: Result<(Seq<T>, int), DecodeError>)
    ensures
        spec_after(acc, spec_cons(x, r)) == spec_after(acc.push(x), r),
{
    if let Ok((s, q)) = r {
        assert(acc + (seq![x] + s) =~= acc.push(x) + s);
    }
}

pub proof fn lemma_after_done<T>(acc: Seq<T>, pos: int)
    ensures
        spec_after(acc, Ok::<(Seq<T>, int), DecodeError>((Seq::<T>::empty(), pos))) == Ok::<
            (Seq<T>, int),
            DecodeError,
        >((acc, pos)),
{
    assert(acc + Seq::<T>::empty() =~= acc);
}

/// The instruction without immediates that an opcode stands for.
pub open spec fn spec_plain(b: u8) -> Option<Inst> {
    if b == 0x00 {
        Some(Inst::Unreachable)
    } else if b == 0x01 {
        Some(Inst::Nop)
    } else if b == 0x0F {
        Some(Inst::Return)
    } else if b == 0x1A {
        Some(Inst::Drop)
    } else if b == 0x1B {
        Some(Inst::Select)
    } else if b == 0x45 {
        Some(Inst::I32Eqz)
    } else if b == 0x46 {
        Some(Inst::I32Compare(IntRelop::Eq))
    } else if b == 0x47 {
        Some(Inst::I32Compare(IntRelop::Ne))
    } else if b == 0x48 {
        Some(Inst::I32Compare(IntRelop::LtS))
    } else if b == 0x49 {
        Some(Inst::I32Compare(IntRelop::LtU))
    } else if b == 0x4A {
        Some(Inst::I32Compare(IntRelop::GtS))
    } else if b == 0x4B {
        Some(Inst::I32Compare(IntRelop::GtU))
    } else if b == 0x4C {
        Some(Inst::I32Compare(IntRelop::LeS))
    } else if b == 0x4D {
        Some(Inst::I32Compare(IntRelop::LeU))
    } else if b == 0x4E {
        Some(Inst::I32Compare(IntRelop::GeS))
    } else if b == 0x4F {
        Some(Inst::I32Compare(IntRelop::GeU))
    } else if b == 0x50 {
        Some(Inst::I64Eqz)
    } else if b == 0x51 {
        Some(Inst::I64Compare(IntRelop::Eq))
    } else if b == 0x52 {
        Some(Inst::I64Compare(IntRelop::Ne))
    } else if b == 0x53 {
        Some(Inst::I64Compare(IntRelop::LtS))
    } else if b == 0x54 {
        Some(Inst::I64Compare(IntRelop::LtU))
    } else if b == 0x55 {
        Some(Inst::I64Compare(IntRelop::GtS))
    } else if b == 0x56 {
        Some(Inst::I64Compare(IntRelop::GtU))
    } else if b == 0x57 {
        Some(Inst::I64Compare(IntRelop::LeS))
    } else if b == 0x58 {
        Some(Inst::I64Compare(IntRelop::LeU))
    } else if b == 0x59 {
        Some(Inst::I64Compare(IntRelop::GeS))
    } else if b == 0x5A {
        Some(Inst::I64Compare(IntRelop::GeU))
    } else if b == 0x5B {
        Some(Inst::Float(FloatOp::Compare32(FloatRelop::Eq)))
    } else if b == 0x5C {
        Some(Inst::Float(FloatOp::Compare32(FloatRelop::Ne)))
    } else if b == 0x5D {
        Some(Inst::Float(FloatOp::Compare32(FloatRelop::Lt)))
    } else if b == 0x5E {
        Some(Inst::Float(FloatOp::Compare32(FloatRelop::Gt)))
    } else if b == 0x5F {
        Some(Inst::Float(FloatOp::Compare32(FloatRelop::Le)))
    } else if b == 0x60 {
        Some(Inst::Float(FloatOp::Compare32(FloatRelop::Ge)))
    } else if b == 0x61 {
        Some(Inst::Float(FloatOp::Compare64(FloatRelop::Eq)))
    } else if b == 0x62 {
        Some(Inst::Float(FloatOp::Compare64(FloatRelop::Ne)))
    } else if b == 0x63 {
        Some(Inst::Float(FloatOp::Compare64(FloatRelop::Lt)))
    } else if b == 0x64 {
        Some(Inst::Float(FloatOp::Compare64(FloatRelop::Gt)))
    } else if b == 0x65 {
        Some(Inst::Float(FloatOp::Compare64(FloatRelop::Le)))
    } else if b == 0x66 {
        Some(Inst::Float(FloatOp::Compare64(FloatRelop::Ge)))
    } else if b == 0x67 {
        Some(Inst::I32Unary(IntUnop::Clz))
    } else if b == 0x68 {
        Some(Inst::I32Unary(IntUnop::Ctz))
    } else if b == 0x69 {
        Some(Inst::I32Unary(IntUnop::Popcnt))
    } else if b == 0x6A {
        Some(Inst::I32Binary(IntBinop::Add))
    } else if b == 0x6B {
        Some(Inst::I32Binary(IntBinop::Sub))
    } else if b == 0x6C {
        Some(Inst::I32Binary(IntBinop::Mul))
    } else if b == 0x6D {
        Some(Inst::I32Binary(IntBinop::DivS))
    } else if b == 0x6E {
        Some(Inst::I32Binary(IntBinop::DivU))
    } else if b == 0x6F {
        Some(Inst::I32Binary(IntBinop::RemS))
    } else if b == 0x70 {
        Some(Inst::I32Binary(IntBinop::RemU))
    } else if b == 0x71 {
        Some(Inst::I32Binary(IntBinop::And))
    } else if b == 0x72 {
        Some(Inst::I32Binary(IntBinop::Or))
    } else if b == 0x73 {
        Some(Inst::I32Binary(IntBinop::Xor))
    } else if b == 0x74 {
        Some(Inst::I32Binary(IntBinop::Shl))
    } else if b == 0x75 {
        Some(Inst::I32Binary(IntBinop::ShrS))
    } else if b == 0x76 {
        Some(Inst::I32Binary(IntBinop::ShrU))
    } else if b == 0x77 {
        Some(Inst::I32Binary(IntBinop::Rotl))
    } else if b == 0x78 {
        Some(Inst::I32Binary(IntBinop::Rotr))
    } else if b == 0x79 {
        Some(Inst::I64Unary(IntUnop::Clz))
    } else if b == 0x7A {
        Some(Inst::I64Unary(IntUnop::Ctz))
    } else if b == 0x7B {
        Some(Inst::I64Unary(IntUnop::Popcnt))
    } else if b == 0x7C {
        Some(Inst::I64Binary(IntBinop::Add))
    } else if b == 0x7D {
        Some(Inst::I64Binary(IntBinop::Sub))
    } else if b == 0x7E {
        Some(Inst::I64Binary(IntBinop::Mul))
    } else if b == 0x7F {
        Some(Inst::I64Binary(IntBinop::DivS))
    } else if b == 0x80 {
        Some(Inst::I64Binary(IntBinop::DivU))
    } else if b == 0x81 {
        Some(Inst::I64Binary(IntBinop::RemS))
    } else if b == 0x82 {
        Some(Inst::I64Binary(IntBinop::RemU))
    } else if b == 0x83 {
        Some(Inst::I64Binary(IntBinop::And))
    } else if b == 0x84 {
        Some(Inst::I64Binary(IntBinop::Or))
    } else if b == 0x85 {
        Some(Inst::I64Binary(IntBinop::Xor))
    } else if b == 0x86 {
        Some(Inst::I64Binary(IntBinop::Shl))
    } else if b == 0x87 {
        Some(Inst::I64Binary(IntBinop::ShrS))
    } else if b == 0x88 {
        Some(Inst::I64Binary(IntBinop::ShrU))
    } else if b == 0x89 {
        Some(Inst::I64Binary(IntBinop::Rotl))
    } else if b == 0x8A {
        Some(Inst::I64Binary(IntBinop::Rotr))
    } else if b == 0x8B {
        Some(Inst::Float(FloatOp::Unary32(FloatUnop::Abs)))
    } else if b == 0x8C {
        Some(Inst::Float(FloatOp::Unary32(FloatUnop::Neg)))
    } else if b == 0x8D {
        Some(Inst::Float(FloatOp::Unary32(FloatUnop::Ceil)))
    } else if b == 0x8E {
        Some(Inst::Float(FloatOp::Unary32(FloatUnop::Floor)))
    } else if b == 0x8F {
        Some(Inst::Float(FloatOp::Unary32(FloatUnop::Trunc)))
    } else if b == 0x90 {
        Some(Inst::Float(FloatOp::Unary32(FloatUnop::Nearest)))
    } else if b == 0x91 {
        Some(Inst::Float(FloatOp::Unary32(FloatUnop::Sqrt)))
    } else if b == 0x92 {
        Some(Inst::Float(FloatOp::Binary32(FloatBinop::Add)))
    } else if b == 0x93 {
        Some(Inst::Float(FloatOp::Binary32(FloatBinop::Sub)))
    } else if b == 0x94 {
        Some(Inst::Float(FloatOp::Binary32(FloatBinop::Mul)))
    } else if b == 0x95 {
        Some(Inst::Float(FloatOp::Binary32(FloatBinop::Div)))
    } else if b == 0x96 {
        Some(Inst::Float(FloatOp::Binary32(FloatBinop::Min)))
    } else if b == 0x97 {
        Some(Inst::Float(FloatOp::Binary32(FloatBinop::Max)))
    } else if b == 0x98 {
        Some(Inst::Float(FloatOp::Binary32(FloatBinop::Copysign)))
    } else if b == 0x99 {
        Some(Inst::Float(FloatOp::Unary64(FloatUnop::Abs)))
    } else if b == 0x9A {
        Some(Inst::Float(FloatOp::Unary64(FloatUnop::Neg)))
    } else if b == 0x9B {
        Some(Inst::Float(FloatOp::Unary64(FloatUnop::Ceil)))
    } else if b == 0x9C {
        Some(Inst::Float(FloatOp::Unary64(FloatUnop::Floor)))
    } else if b == 0x9D {
        Some(Inst::Float(FloatOp::Unary64(FloatUnop::Trunc)))
    } else if b == 0x9E {
        Some(Inst::Float(FloatOp::Unary64(FloatUnop::Nearest)))
    } else if b == 0x9F {
        Some(Inst::Float(FloatOp::Unary64(FloatUnop::Sqrt)))
    } else if b == 0xA0 {
        Some(Inst::Float(FloatOp::Binary64(FloatBinop::Add)))
    } else if b == 0xA1 {
        Some(Inst::Float(FloatOp::Binary64(FloatBinop::Sub)))
    } else if b == 0xA2 {
        Some(Inst::Float(FloatOp::Binary64(FloatBinop::Mul)))
    } else if b == 0xA3 {
        Some(Inst::Float(FloatOp::Binary64(FloatBinop::Div)))
    } else if b == 0xA4 {
        Some(Inst::Float(FloatOp::Binary64(FloatBinop::Min)))
    } else if b == 0xA5 {
        Some(Inst::Float(FloatOp::Binary64(FloatBinop::Max)))
    } else if b == 0xA6 {
        Some(Inst::Float(FloatOp::Binary64(FloatBinop::Copysign)))
    } else if b == 0xA7 {
        Some(Inst::Convert(IntConv::I32WrapI64))
    } else if b == 0xA8 {
        Some(Inst::Float(FloatOp::Convert(FloatConv::I32TruncF32S)))
    } else if b == 0xA9 {
        Some(Inst::Float(FloatOp::Convert(FloatConv::I32TruncF32U)))
    } else if b == 0xAA {
        Some(Inst::Float(FloatOp::Convert(FloatConv::I32TruncF64S)))
    } else if b == 0xAB {
        Some(Inst::Float(FloatOp::Convert(FloatConv::I32TruncF64U)))
    } else if b == 0xAC {
        Some(Inst::Convert(IntConv::I64ExtendI32S))
    } else if b == 0xAD {
        Some(Inst::Convert(IntConv::I64ExtendI32U))
    } else if b == 0xAE {
        Some(Inst::Float(FloatOp::Convert(FloatConv::I64TruncF32S)))
    } else if b == 0xAF {
        Some(Inst::Float(FloatOp::Convert(FloatConv::I64TruncF32U)))
    } else if b == 0xB0 {
        Some(Inst::Float(FloatOp::Convert(FloatConv::I64TruncF64S)))
    } else if b == 0xB1 {
        Some(Inst::Float(FloatOp::Convert(FloatConv::I64TruncF64U)))
    } else if b == 0xB2 {
        Some(Inst::Float(FloatOp::Convert(FloatConv::F32ConvertI32S)))
    } else if b == 0xB3 {
        Some(Inst::Float(FloatOp::Convert(FloatConv::F32ConvertI32U)))
    } else if b == 0xB4 {
        Some(Inst::Float(FloatOp::Convert(FloatConv::F32ConvertI64S)))
    } else if b == 0xB5 {
        Some(Inst::Float(FloatOp::Convert(FloatConv::F32ConvertI64U)))
    } else if b == 0xB6 {
        Some(Inst::Float(FloatOp::Convert(FloatConv::F32DemoteF64)))
    } else if b == 0xB7 {
        Some(Inst::Float(FloatOp::Convert(FloatConv::F64ConvertI32S)))
    } else if b == 0xB8 {
        Some(Inst::Float(FloatOp::Convert(FloatConv::F64ConvertI32U)))
    } else if b == 0xB9 {
        Some(Inst::Float(FloatOp::Convert(FloatConv::F64ConvertI64S)))
    } else if b == 0xBA {
        Some(Inst::Float(FloatOp::Convert(FloatConv::F64ConvertI64U)))
    } else if b == 0xBB {
        Some(Inst::Float(FloatOp::Convert(FloatConv::F64PromoteF32)))
    } else if b == 0xBC {
        Some(Inst::Convert(IntConv::I32ReinterpretF32))
    } else if b == 0xBD {
        Some(Inst::Convert(IntConv::I64ReinterpretF64))
    } else if b == 0xBE {
        Some(Inst::Convert(IntConv::F32ReinterpretI32))
    } else if b == 0xBF {
        Some(Inst::Convert(IntConv::F64ReinterpretI64))
    } else {
        None
    }
}

pub fn plain(b: u8) -> (r: Option<Inst>)
    ensures
        r == spec_plain(b),
        r matches Some(i) ==> i.deep() == InstView::Plain(i),
{
    if b == 0x00 {
        Some(Inst::Unreachable)
    } else if b == 0x01 {
        Some(Inst::Nop)
    } else if b == 0x0F {
        Some(Inst::Return)
    } else if b == 0x1A {
        Some(Inst::Drop)
    } else if b == 0x1B {
        Some(Inst::Select)
    } else if b == 0x45 {
        Some(Inst::I32Eqz)
    } else if b == 0x46 {
        Some(Inst::I32Compare(IntRelop::Eq))
    } else if b == 0x47 {
        Some(Inst::I32Compare(IntRelop::Ne))
    } else if b == 0x48 {
        Some(Inst::I32Compare(IntRelop::LtS))
    } else if b == 0x49 {
        Some(Inst::I32Compare(IntRelop::LtU))
    } else if b == 0x4A {
        Some(Inst::I32Compare(IntRelop::GtS))
    } else if b == 0x4B {
        Some(Inst::I32Compare(IntRelop::GtU))
    } else if b == 0x4C {
        Some(Inst::I32Compare(IntRelop::LeS))
    } else if b == 0x4D {
        Some(Inst::I32Compare(IntRelop::LeU))
    } else if b == 0x4E {
        Some(Inst::I32Compare(IntRelop::GeS))
    } else if b == 0x4F {
        Some(Inst::I32Compare(IntRelop::GeU))
    } else if b == 0x50 {
        Some(Inst::I64Eqz)
    } else if b == 0x51 {
        Some(Inst::I64Compare(IntRelop::Eq))
    } else if b == 0x52 {
        Some(Inst::I64Compare(IntRelop::Ne))
    } else if b == 0x53 {
        Some(Inst::I64Compare(IntRelop::LtS))
    } else if b == 0x54 {
        Some(Inst::I64Compare(IntRelop::LtU))
    } else if b == 0x55 {
        Some(Inst::I64Compare(IntRelop::GtS))
    } else if b == 0x56 {
        Some(Inst::I64Compare(IntRelop::GtU))
    } else if b == 0x57 {
        Some(Inst::I64Compare(IntRelop::LeS))
    } else if b == 0x58 {
        Some(Inst::I64Compare(IntRelop::LeU))
    } else if b == 0x59 {
        Some(Inst::I64Compare(IntRelop::GeS))
    } else if b == 0x5A {
        Some(Inst::I64Compare(IntRelop::GeU))
    } else if b == 0x5B {
        Some(Inst::Float(FloatOp::Compare32(FloatRelop::Eq)))
    } else if b == 0x5C {
        Some(Inst::Float(FloatOp::Compare32(FloatRelop::Ne)))
    } else if b == 0x5D {
        Some(Inst::Float(FloatOp::Compare32(FloatRelop::Lt)))
    } else if b == 0x5E {
        Some(Inst::Float(FloatOp::Compare32(FloatRelop::Gt)))
    } else if b == 0x5F {
        Some(Inst::Float(FloatOp::Compare32(FloatRelop::Le)))
    } else if b == 0x60 {
        Some(Inst::Float(FloatOp::Compare32(FloatRelop::Ge)))
    } else if b == 0x61 {
        Some(Inst::Float(FloatOp::Compare64(FloatRelop::Eq)))
    } else if b == 0x62 {
        Some(Inst::Float(FloatOp::Compare64(FloatRelop::Ne)))
    } else if b == 0x63 {
        Some(Inst::Float(FloatOp::Compare64(FloatRelop::Lt)))
    } else if b == 0x64 {
        Some(Inst::Float(FloatOp::Compare64(FloatRelop::Gt)))
    } else if b == 0x65 {
        Some(Inst::Float(FloatOp::Compare64(FloatRelop::Le)))
    } else if b == 0x66 {
        Some(Inst::Float(FloatOp::Compare64(FloatRelop::Ge)))
    } else if b == 0x67 {
        Some(Inst::I32Unary(IntUnop::Clz))
    } else if b == 0x68 {
        Some(Inst::I32Unary(IntUnop::Ctz))
    } else if b == 0x69 {
        Some(Inst::I32Unary(IntUnop::Popcnt))
    } else if b == 0x6A {
        Some(Inst::I32Binary(IntBinop::Add))
    } else if b == 0x6B {
        Some(Inst::I32Binary(IntBinop::Sub))
    } else if b == 0x6C {
        Some(Inst::I32Binary(IntBinop::Mul))
    } else if b == 0x6D {
        Some(Inst::I32Binary(IntBinop::DivS))
    } else if b == 0x6E {
        Some(Inst::I32Binary(IntBinop::DivU))
    } else if b == 0x6F {
        Some(Inst::I32Binary(IntBinop::RemS))
    } else if b == 0x70 {
        Some(Inst::I32Binary(IntBinop::RemU))
    } else if b == 0x71 {
        Some(Inst::I32Binary(IntBinop::And))
    } else if b == 0x72 {
        Some(Inst::I32Binary(IntBinop::Or))
    } else if b == 0x73 {
        Some(Inst::I32Binary(IntBinop::Xor))
    } else if b == 0x74 {
        Some(Inst::I32Binary(IntBinop::Shl))
    } else if b == 0x75 {
        Some(Inst::I32Binary(IntBinop::ShrS))
    } else if b == 0x76 {
        Some(Inst::I32Binary(IntBinop::ShrU))
    } else if b == 0x77 {
        Some(Inst::I32Binary(IntBinop::Rotl))
    } else if b == 0x78 {
        Some(Inst::I32Binary(IntBinop::Rotr))
    } else if b == 0x79 {
        Some(Inst::I64Unary(IntUnop::Clz))
    } else if b == 0x7A {
        Some(Inst::I64Unary(IntUnop::Ctz))
    } else if b == 0x7B {
        Some(Inst::I64Unary(IntUnop::Popcnt))
    } else if b == 0x7C {
        Some(Inst::I64Binary(IntBinop::Add))
    } else if b == 0x7D {
        Some(Inst::I64Binary(IntBinop::Sub))
    } else if b == 0x7E {
        Some(Inst::I64Binary(IntBinop::Mul))
    } else if b == 0x7F {
        Some(Inst::I64Binary(IntBinop::DivS))
    } else if b == 0x80 {
        Some(Inst::I64Binary(IntBinop::DivU))
    } else if b == 0x81 {
        Some(Inst::I64Binary(IntBinop::RemS))
    } else if b == 0x82 {
        Some(Inst::I64Binary(IntBinop::RemU))
    } else if b == 0x83 {
        Some(Inst::I64Binary(IntBinop::And))
    } else if b == 0x84 {
        Some(Inst::I64Binary(IntBinop::Or))
    } else if b == 0x85 {
        Some(Inst::I64Binary(IntBinop::Xor))
    } else if b == 0x86 {
        Some(Inst::I64Binary(IntBinop::Shl))
    } else if b == 0x87 {
        Some(Inst::I64Binary(IntBinop::ShrS))
    } else if b == 0x88 {
        Some(Inst::I64Binary(IntBinop::ShrU))
    } else if b == 0x89 {
        Some(Inst::I64Binary(IntBinop::Rotl))
    } else if b == 0x8A {
        Some(Inst::I64Binary(IntBinop::Rotr))
    } else if b == 0x8B {
        Some(Inst::Float(FloatOp::Unary32(FloatUnop::Abs)))
    } else if b == 0x8C {
        Some(Inst::Float(FloatOp::Unary32(FloatUnop::Neg)))
    } else if b == 0x8D {
        Some(Inst::Float(FloatOp::Unary32(FloatUnop::Ceil)))
    } else if b == 0x8E {
        Some(Inst::Float(FloatOp::Unary32(FloatUnop::Floor)))
    } else if b == 0x8F {
        Some(Inst::Float(FloatOp::Unary32(FloatUnop::Trunc)))
    } else if b == 0x90 {
        Some(Inst::Float(FloatOp::Unary32(FloatUnop::Nearest)))
    } else if b == 0x91 {
        Some(Inst::Float(FloatOp::Unary32(FloatUnop::Sqrt)))
    } else if b == 0x92 {
        Some(Inst::Float(FloatOp::Binary32(FloatBinop::Add)))
    } else if b == 0x93 {
        Some(Inst::Float(FloatOp::Binary32(FloatBinop::Sub)))
    } else if b == 0x94 {
        Some(Inst::Float(FloatOp::Binary32(FloatBinop::Mul)))
    } else if b == 0x95 {
        Some(Inst::Float(FloatOp::Binary32(FloatBinop::Div)))
    } else if b == 0x96 {
        Some(Inst::Float(FloatOp::Binary32(FloatBinop::Min)))
    } else if b == 0x97 {
        Some(Inst::Float(FloatOp::Binary32(FloatBinop::Max)))
    } else if b == 0x98 {
        Some(Inst::Float(FloatOp::Binary32(FloatBinop::Copysign)))
    } else if b == 0x99 {
        Some(Inst::Float(FloatOp::Unary64(FloatUnop::Abs)))
    } else if b == 0x9A {
        Some(Inst::Float(FloatOp::Unary64(FloatUnop::Neg)))
    } else if b == 0x9B {
        Some(Inst::Float(FloatOp::Unary64(FloatUnop::Ceil)))
    } else if b == 0x9C {
        Some(Inst::Float(FloatOp::Unary64(FloatUnop::Floor)))
    } else if b == 0x9D {
        Some(Inst::Float(FloatOp::Unary64(FloatUnop::Trunc)))
    } else if b == 0x9E {
        Some(Inst::Float(FloatOp::Unary64(FloatUnop::Nearest)))
    } else if b == 0x9F {
        Some(Inst::Float(FloatOp::Unary64(FloatUnop::Sqrt)))
    } else if b == 0xA0 {
        Some(Inst::Float(FloatOp::Binary64(FloatBinop::Add)))
    } else if b == 0xA1 {
        Some(Inst::Float(FloatOp::Binary64(FloatBinop::Sub)))
    } else if b == 0xA2 {
        Some(Inst::Float(FloatOp::Binary64(FloatBinop::Mul)))
    } else if b == 0xA3 {
        Some(Inst::Float(FloatOp::Binary64(FloatBinop::Div)))
    } else if b == 0xA4 {
        Some(Inst::Float(FloatOp::Binary64(FloatBinop::Min)))
    } else if b == 0xA5 {
        Some(Inst::Float(FloatOp::Binary64(FloatBinop::Max)))
    } else if b == 0xA6 {
        Some(Inst::Float(FloatOp::Binary64(FloatBinop::Copysign)))
    } else if b == 0xA7 {
        Some(Inst::Convert(IntConv::I32WrapI64))
    } else if b == 0xA8 {
        Some(Inst::Float(FloatOp::Convert(FloatConv::I32TruncF32S)))
    } else if b == 0xA9 {
        Some(Inst::Float(FloatOp::Convert(FloatConv::I32TruncF32U)))
    } else if b == 0xAA {
        Some(Inst::Float(FloatOp::Convert(FloatConv::I32TruncF64S)))
    } else if b == 0xAB {
        Some(Inst::Float(FloatOp::Convert(FloatConv::I32TruncF64U)))
    } else if b == 0xAC {
        Some(Inst::Convert(IntConv::I64ExtendI32S))
    } else if b == 0xAD {
        Some(Inst::Convert(IntConv::I64ExtendI32U))
    } else if b == 0xAE {
        Some(Inst::Float(FloatOp::Convert(FloatConv::I64TruncF32S)))
    } else if b == 0xAF {
        Some(Inst::Float(FloatOp::Convert(FloatConv::I64TruncF32U)))
    } else if b == 0xB0 {
        Some(Inst::Float(FloatOp::Convert(FloatConv::I64TruncF64S)))
    } else if b == 0xB1 {
        Some(Inst::Float(FloatOp::Convert(FloatConv::I64TruncF64U)))
    } else if b == 0xB2 {
        Some(Inst::Float(FloatOp::Convert(FloatConv::F32ConvertI32S)))
    } else if b == 0xB3 {
        Some(Inst::Float(FloatOp::Convert(FloatConv::F32ConvertI32U)))
    } else if b == 0xB4 {
        Some(Inst::Float(FloatOp::Convert(FloatConv::F32ConvertI64S)))
    } else if b == 0xB5 {
        Some(Inst::Float(FloatOp::Convert(FloatConv::F32ConvertI64U)))
    } else if b == 0xB6 {
        Some(Inst::Float(FloatOp::Convert(FloatConv::F32DemoteF64)))
    } else if b == 0xB7 {
        Some(Inst::Float(FloatOp::Convert(FloatConv::F64ConvertI32S)))
    } else if b == 0xB8 {
        Some(Inst::Float(FloatOp::Convert(FloatConv::F64ConvertI32U)))
    } else if b == 0xB9 {
        Some(Inst::Float(FloatOp::Convert(FloatConv::F64ConvertI64S)))
    } else if b == 0xBA {
        Some(Inst::Float(FloatOp::Convert(FloatConv::F64ConvertI64U)))
    } else if b == 0xBB {
        Some(Inst::Float(FloatOp::Convert(FloatConv::F64PromoteF32)))
    } else if b == 0xBC {
        Some(Inst::Convert(IntConv::I32ReinterpretF32))
    } else if b == 0xBD {
        Some(Inst::Convert(IntConv::I64ReinterpretF64))
    } else if b == 0xBE {
        Some(Inst::Convert(IntConv::F32ReinterpretI32))
    } else if b == 0xBF {
        Some(Inst::Convert(IntConv::F64ReinterpretI64))
    } else {
        None
    }
}

/// The load that an opcode stands for.
pub open spec fn spec_load_op(b: u8) -> Option<LoadOp> {
    if b == 0x28 {
        Some(LoadOp::I32Load)
    } else if b == 0x29 {
        Some(LoadOp::I64Load)
    } else if b == 0x2A {
        Some(LoadOp::F32Load)
    } else if b == 0x2B {
        Some(LoadOp::F64Load)
    } else if b == 0x2C {
        Some(LoadOp::I32Load8S)
    } else if b == 0x2D {
        Some(LoadOp::I32Load8U)
    } else if b == 0x2E {
        Some(LoadOp::I32Load16S)
    } else if b == 0x2F {
        Some(LoadOp::I32Load16U)
    } else if b == 0x30 {
        Some(LoadOp::I64Load8S)
    } else if b == 0x31 {
        Some(LoadOp::I64Load8U)
    } else if b == 0x32 {
        Some(LoadOp::I64Load16S)
    } else if b == 0x33 {
        Some(LoadOp::I64Load16U)
    } else if b == 0x34 {
        Some(LoadOp::I64Load32S)
    } else if b == 0x35 {
        Some(LoadOp::I64Load32U)
    } else {
        None
    }
}

pub fn load_op(b: u8) -> (r: Option<LoadOp>)
    ensures
        r == spec_load_op(b),
{
    if b == 0x28 {
        Some(LoadOp::I32Load)
    } else if b == 0x29 {
        Some(LoadOp::I64Load)
    } else if b == 0x2A {
        Some(LoadOp::F32Load)
    } else if b == 0x2B {
        Some(LoadOp::F64Load)
    } else if b == 0x2C {
        Some(LoadOp::I32Load8S)
    } else if b == 0x2D {
        Some(LoadOp::I32Load8U)
    } else if b == 0x2E {
        Some(LoadOp::I32Load16S)
    } else if b == 0x2F {
        Some(LoadOp::I32Load16U)
    } else if b == 0x30 {
        Some(LoadOp::I64Load8S)
    } else if b == 0x31 {
        Some(LoadOp::I64Load8U)
    } else if b == 0x32 {
        Some(LoadOp::I64Load16S)
    } else if b == 0x33 {
        Some(LoadOp::I64Load16U)
    } else if b == 0x34 {
        Some(LoadOp::I64Load32S)
    } else if b == 0x35 {
        Some(LoadOp::I64Load32U)
    } else {
        None
    }
}

/// The store that an opcode stands for.
pub open spec fn spec_store_op(b: u8) -> Option<StoreOp> {
    if b == 0x36 {
        Some(StoreOp::I32Store)
    } else if b == 0x37 {
        Some(StoreOp::I64Store)
    } else if b == 0x38 {
        Some(StoreOp::F32Store)
    } else if b == 0x39 {
        Some(StoreOp::F64Store)
    } else if b == 0x3A {
        Some(StoreOp::I32Store8)
    } else if b == 0x3B {
        Some(StoreOp::I32Store16)
    } else if b == 0x3C {
        Some(StoreOp::I64Store8)
    } else if b == 0x3D {
        Some(StoreOp::I64Store16)
    } else if b == 0x3E {
        Some(StoreOp::I64Store32)
    } else {
        None
    }
}

pub fn store_op(b: u8) -> (r: Option<StoreOp>)
    ensures
        r == spec_store_op(b),
{
    if b == 0x36 {
        Some(StoreOp::I32Store)
    } else if b == 0x37 {
        Some(StoreOp::I64Store)
    } else if b == 0x38 {
        Some(StoreOp::F32Store)
    } else if b == 0x39 {
        Some(StoreOp::F64Store)
    } else if b == 0x3A {
        Some(StoreOp::I32Store8)
    } else if b == 0x3B {
        Some(StoreOp::I32Store16)
    } else if b == 0x3C {
        Some(StoreOp::I64Store8)
    } else if b == 0x3D {
        Some(StoreOp::I64Store16)
    } else if b == 0x3E {
        Some(StoreOp::I64Store32)
    } else {
        None
    }
}


/// The value type at `pos` and the position after it.
pub open spec fn spec_valtype(bytes: Seq<u8>, pos: int) -> Result<(ValType, int), DecodeError> {
    match spec_byte(bytes, pos) {
        Err(e) => Err(e),
        Ok((b, p)) => match valtype_of_byte(b) {
            Some(t) => Ok((t, p)),
            None => Err(spec_fail(DecodeErrorKind::InvalidValType(b), pos)),
        },
    }
}

/// The reference type at `pos` and the position after it.
pub open spec fn spec_reftype(bytes: Seq<u8>, pos: int) -> Result<(Reftype, int), DecodeError> {
    match spec_byte(bytes, pos) {
        Err(e) => Err(e),
        Ok((b, p)) => if b == 0x70 {
            Ok((Reftype::Funcref, p))
        } else if b == 0x6F {
            Ok((Reftype::Externref, p))
        } else {
            Err(spec_fail(DecodeErrorKind::Malformed, pos))
        },
    }
}

/// The limits at `pos` and the position after them: a flag, the lower
/// bound, and the upper bound if the flag is 1.
pub open spec fn spec_limits(bytes: Seq<u8>, pos: int) -> Result<(Limits, int), DecodeError> {
    match spec_byte(bytes, pos) {
        Err(e) => Err(e),
        Ok((b, p)) => if b == 0 {
            match spec_u32(bytes, p) {
                Err(e) => Err(e),
                Ok((min, q)) => Ok((Limits { min, max: None }, q)),
            }
        } else if b == 1 {
            match spec_u32(bytes, p) {
                Err(e) => Err(e),
                Ok((min, q)) => match spec_u32(bytes, q) {
                    Err(e) => Err(e),
                    Ok((max, r)) => Ok((Limits { min, max: Some(max) }, r)),
                },
            }
        } else {
            Err(spec_fail(DecodeErrorKind::Malformed, pos))
        },
    }
}

/// The table type at `pos` and the position after it.
pub open spec fn spec_tabletype(bytes: Seq<u8>, pos: int) -> Result<(TableType, int), DecodeError> {
    match spec_reftype(bytes, pos) {
        Err(e) => Err(e),
        Ok((reftype, p)) => match spec_limits(bytes, p) {
            Err(e) => Err(e),
            Ok((limits, q)) => Ok((TableType { reftype, limits }, q)),
        },
    }
}

/// The memory type at `pos` and the position after it.
pub open spec fn spec_memtype(bytes: Seq<u8>, pos: int) -> Result<(MemType, int), DecodeError> {
    match spec_limits(bytes, pos) {
        Err(e) => Err(e),
        Ok((limits, q)) => Ok((MemType { limits }, q)),
    }
}

/// The global type at `pos` and the position after it: a value type and a
/// byte that is 1 for a mutable global.
pub open spec fn spec_globaltype(bytes: Seq<u8>, pos: int) -> Result<(GlobalType, int), DecodeError> {
    match spec_valtype(bytes, pos) {
        Err(e) => Err(e),
        Ok((t, p)) => match spec_byte(bytes, p) {
            Err(e) => Err(e),
            Ok((b, q)) => if b == 0 {
                Ok((GlobalType { mutable: false, t }, q))
            } else if b == 1 {
                Ok((GlobalType { mutable: true, t }, q))
            } else {
                Err(spec_fail(DecodeErrorKind::Malformed, p))
            },
        },
    }
}

/// The block type at `pos` and the position after it: the byte 0x40 for
/// the empty type, a value type, or a type index as a signed number of 33
/// bits that is not negative.
pub open spec fn spec_blocktype(bytes: Seq<u8>, pos: int) -> Result<(BlockType, int), DecodeError> {
    match spec_byte(bytes, pos) {
        Err(e) => Err(e),
        Ok((b, p)) => if b == 0x40 {
            Ok((BlockType::Empty, p))
        } else if valtype_of_byte(b) is Some {
            Ok((BlockType::Inline(valtype_of_byte(b)->Some_0), p))
        } else {
            match spec_signed(bytes, pos, 5, 33) {
                Err(e) => Err(e),
                Ok((v, q)) => if v >= 0 {
                    Ok((BlockType::Type(TypeIdx(v as u32)), q))
                } else {
                    Err(spec_fail(DecodeErrorKind::Malformed, pos))
                },
            }
        },
    }
}

/// The immediate of a load or store at `pos` and the position after it.
pub open spec fn spec_memarg(bytes: Seq<u8>, pos: int) -> Result<(MemArg, int), DecodeError> {
    match spec_u32(bytes, pos) {
        Err(e) => Err(e),
        Ok((align, p)) => match spec_u32(bytes, p) {
            Err(e) => Err(e),
            Ok((offset, q)) => Ok((MemArg { align, offset }, q)),
        },
    }
}

/// The bytes at `pos` that a count precedes, and the position after them.
pub open spec fn spec_blob(bytes: Seq<u8>, pos: int) -> Result<(Seq<u8>, int), DecodeError> {
    match spec_u32(bytes, pos) {
        Err(e) => Err(e),
        Ok((n, p)) => if p + n <= bytes.len() {
            Ok((bytes.subrange(p, p + n), p + n))
        } else {
            Err(spec_fail(DecodeErrorKind::UnexpectedEof, bytes.len() as int))
        },
    }
}

/// The name at `pos` and the position after it: counted bytes that are
/// UTF-8.
pub open spec fn spec_name(bytes: Seq<u8>, pos: int) -> Result<(Seq<char>, int), DecodeError> {
    match spec_blob(bytes, pos) {
        Err(e) => Err(e),
        Ok((b, p)) => if valid_utf8(b) {
            Ok((decode_utf8(b), p))
        } else {
            Err(spec_fail(DecodeErrorKind::InvalidUtf8, pos))
        },
    }
}

/// The `count` value types from `pos` on, and the position after them.
pub open spec fn spec_valtypes(bytes: Seq<u8>, pos: int, count: nat) -> Result<(Seq<ValType>, int), DecodeError>
    decreases count,
{
    if count == 0 {
        Ok((Seq::empty(), pos))
    } else {
        match spec_valtype(bytes, pos) {
            Err(e) => Err(e),
            Ok((x, p)) => spec_cons(x, spec_valtypes(bytes, p, (count - 1) as nat)),
        }
    }
}

/// The result type at `pos` and the position after it: a count and as many
/// value types.
pub open spec fn spec_resulttype(bytes: Seq<u8>, pos: int) -> Result<(Seq<ValType>, int), DecodeError> {
    match spec_u32(bytes, pos) {
        Err(e) => Err(e),
        Ok((n, p)) => spec_valtypes(bytes, p, n as nat),
    }
}

/// The function type at `pos` and the position after it: the byte 0x60,
/// the parameters and the results.
pub open spec fn spec_functype(bytes: Seq<u8>, pos: int) -> Result<
    ((Seq<ValType>, Seq<ValType>), int),
    DecodeError,
> {
    match spec_byte(bytes, pos) {
        Err(e) => Err(e),
        Ok((b, p)) => if b != 0x60 {
            Err(spec_fail(DecodeErrorKind::Malformed, pos))
        } else {
            match spec_resulttype(bytes, p) {
                Err(e) => Err(e),
                Ok((from, q)) => match spec_resulttype(bytes, q) {
                    Err(e) => Err(e),
                    Ok((to, r)) => Ok(((from, to), r)),
                },
            }
        },
    }
}

/// The type index at `pos` and the position after it.
pub open spec fn spec_typeidx(bytes: Seq<u8>, pos: int) -> Result<(TypeIdx, int), DecodeError> {
    match spec_u32(bytes, pos) {
        Err(e) => Err(e),
        Ok((v, p)) => Ok((TypeIdx(v), p)),
    }
}

/// The function index at `pos` and the position after it.
pub open spec fn spec_funcidx(bytes: Seq<u8>, pos: int) -> Result<(FuncIdx, int), DecodeError> {
    match spec_u32(bytes, pos) {
        Err(e) => Err(e),
        Ok((v, p)) => Ok((FuncIdx(v), p)),
    }
}

/// The label index at `pos` and the position after it.
pub open spec fn spec_labelidx(bytes: Seq<u8>, pos: int) -> Result<(LabelIdx, int), DecodeError> {
    match spec_u32(bytes, pos) {
        Err(e) => Err(e),
        Ok((v, p)) => Ok((LabelIdx(v), p)),
    }
}

/// What an import describes, at `pos`, and the position after it: a byte
/// that selects a function, table, memory or global, and its type.
pub open spec fn spec_import_desc(bytes: Seq<u8>, pos: int) -> Result<(ImportDesc, int), DecodeError> {
    match spec_byte(bytes, pos) {
        Err(e) => Err(e),
        Ok((b, p)) => if b == 0 {
            match spec_typeidx(bytes, p) {
                Err(e) => Err(e),
                Ok((t, q)) => Ok((ImportDesc::Func(t), q)),
            }
        } else if b == 1 {
            match spec_tabletype(bytes, p) {
                Err(e) => Err(e),
                Ok((t, q)) => Ok((ImportDesc::Table(t), q)),
            }
        } else if b == 2 {
            match spec_memtype(bytes, p) {
                Err(e) => Err(e),
                Ok((t, q)) => Ok((ImportDesc::Mem(t), q)),
            }
        } else if b == 3 {
            match spec_globaltype(bytes, p) {
                Err(e) => Err(e),
                Ok((t, q)) => Ok((ImportDesc::Global(t), q)),
            }
        } else {
            Err(spec_fail(DecodeErrorKind::Malformed, pos))
        },
    }
}

/// The import at `pos` and the position after it: the module's name, the
/// field's name, and what is imported.
pub open spec fn spec_import(bytes: Seq<u8>, pos: int) -> Result<(ImportView, int), DecodeError> {
    match spec_name(bytes, pos) {
        Err(e) => Err(e),
        Ok((module, p)) => match spec_name(bytes, p) {
            Err(e) => Err(e),
            Ok((nm, q)) => match spec_import_desc(bytes, q) {
                Err(e) => Err(e),
                Ok((desc, r)) => Ok((ImportView { module, nm, desc }, r)),
            },
        },
    }
}

/// What an export describes, at `pos`, and the position after it: a byte
/// that selects a function, table, memory or global, and its index.
pub open spec fn spec_export_desc(bytes: Seq<u8>, pos: int) -> Result<(ExportDesc, int), DecodeError> {
    match spec_byte(bytes, pos) {
        Err(e) => Err(e),
        Ok((b, p)) => if b > 3 {
            Err(spec_fail(DecodeErrorKind::Malformed, pos))
        } else {
            match spec_u32(bytes, p) {
                Err(e) => Err(e),
                Ok((v, q)) => Ok(
                    (
                        if b == 0 {
                            ExportDesc::Func(FuncIdx(v))
                        } else if b == 1 {
                            ExportDesc::Table(TableIdx(v))
                        } else if b == 2 {
                            ExportDesc::Mem(MemIdx(v))
                        } else {
                            ExportDesc::Global(GlobalIdx(v))
                        },
                        q,
                    ),
                ),
            }
        },
    }
}

/// The export at `pos` and the position after it.
pub open spec fn spec_export(bytes: Seq<u8>, pos: int) -> Result<(ExportView, int), DecodeError> {
    match spec_name(bytes, pos) {
        Err(e) => Err(e),
        Ok((name, p)) => match spec_export_desc(bytes, p) {
            Err(e) => Err(e),
            Ok((desc, q)) => Ok((ExportView { name, desc }, q)),
        },
    }
}

/// The declaration of locals at `pos` and the position after it: a count
/// and a value type.
pub open spec fn spec_local(bytes: Seq<u8>, pos: int) -> Result<(Locals, int), DecodeError> {
    match spec_u32(bytes, pos) {
        Err(e) => Err(e),
        Ok((n, p)) => match spec_valtype(bytes, p) {
            Err(e) => Err(e),
            Ok((t, q)) => Ok((Locals { n, t }, q)),
        },
    }
}

/// A result with the instructions `acc` in front.
pub open spec fn spec_body_after(acc: Seq<InstView>, r: Result<(Seq<InstView>, u8, int), DecodeError>) -> Result<
    (Seq<InstView>, u8, int),
    DecodeError,
> {
    match r {
        Ok((s, t, q)) => Ok((acc + s, t, q)),
        Err(e) => Err(e),
    }
}

/// The instruction at `pos` and the position after it. An opcode byte
/// selects the instruction; its immediates follow. `block` and `loop`
/// carry a block type and a body that ends with 0x0B; `if` carries a block
/// type and one body, or two with 0x05 between them.
pub open spec fn spec_instr(bytes: Seq<u8>, pos: int) -> Result<(InstView, int), DecodeError>
    decreases bytes.len() - pos, 0nat,
{
    match spec_byte(bytes, pos) {
        Err(e) => Err(e),
        Ok((b, p)) => if b == 0x02 || b == 0x03 || b == 0x04 {
            match spec_blocktype(bytes, p) {
                Err(e) => Err(e),
                Ok((bt, q)) => if q <= pos || q > bytes.len() {
                    Err(spec_fail(DecodeErrorKind::Malformed, pos))
                } else {
                    match spec_body(bytes, q) {
                        Err(e) => Err(e),
                        Ok((first, t, r)) => if b == 0x04 && t == 0x05 {
                            if r <= pos || r > bytes.len() {
                                Err(spec_fail(DecodeErrorKind::Malformed, pos))
                            } else {
                                match spec_body(bytes, r) {
                                    Err(e) => Err(e),
                                    Ok((second, t2, s)) => if t2 == 0x0B {
                                        Ok((InstView::IfElse(bt, first, second), s))
                                    } else {
                                        Err(spec_fail(DecodeErrorKind::Malformed, s - 1))
                                    },
                                }
                            }
                        } else if t != 0x0B {
                            Err(spec_fail(DecodeErrorKind::Malformed, r - 1))
                        } else if b == 0x02 {
                            Ok((InstView::Block(bt, first), r))
                        } else if b == 0x03 {
                            Ok((InstView::Loop(bt, first), r))
                        } else {
                            Ok((InstView::IfElse(bt, first, Seq::empty()), r))
                        },
                    }
                },
            }
        } else if b == 0x0C {
            match spec_labelidx(bytes, p) {
                Err(e) => Err(e),
                Ok((l, q)) => Ok((InstView::Plain(Inst::Break(l)), q)),
            }
        } else if b == 0x0D {
            match spec_labelidx(bytes, p) {
                Err(e) => Err(e),
                Ok((l, q)) => Ok((InstView::Plain(Inst::BreakIf(l)), q)),
            }
        } else if b == 0x0E {
            match spec_u32(bytes, p) {
                Err(e) => Err(e),
                Ok((n, q)) => match spec_labelidxs(bytes, q, n as nat) {
                    Err(e) => Err(e),
                    Ok((ls, r)) => match spec_labelidx(bytes, r) {
                        Err(e) => Err(e),
                        Ok((d, s)) => Ok((InstView::BreakTable(ls, d), s)),
                    },
                },
            }
        } else if b == 0x10 {
            match spec_funcidx(bytes, p) {
                Err(e) => Err(e),
                Ok((f, q)) => Ok((InstView::Plain(Inst::Call(f)), q)),
            }
        } else if b == 0x11 {
            match spec_typeidx(bytes, p) {
                Err(e) => Err(e),
                Ok((t, q)) => match spec_u32(bytes, q) {
                    Err(e) => Err(e),
                    Ok((table, r)) => Ok(
                        (InstView::Plain(Inst::CallIndirect(t, TableIdx(table))), r),
                    ),
                },
            }
        } else if 0x20 <= b <= 0x24 {
            match spec_u32(bytes, p) {
                Err(e) => Err(e),
                Ok((v, q)) => Ok(
                    (
                        InstView::Plain(
                            if b == 0x20 {
                                Inst::LocalGet(LocalIdx(v))
                            } else if b == 0x21 {
                                Inst::LocalSet(LocalIdx(v))
                            } else if b == 0x22 {
                                Inst::LocalTee(LocalIdx(v))
                            } else if b == 0x23 {
                                Inst::GlobalGet(GlobalIdx(v))
                            } else {
                                Inst::GlobalSet(GlobalIdx(v))
                            },
                        ),
                        q,
                    ),
                ),
            }
        } else if spec_load_op(b) is Some {
            match spec_memarg(bytes, p) {
                Err(e) => Err(e),
                Ok((m, q)) => Ok((InstView::Plain(Inst::Load(spec_load_op(b)->Some_0, m)), q)),
            }
        } else if spec_store_op(b) is Some {
            match spec_memarg(bytes, p) {
                Err(e) => Err(e),
                Ok((m, q)) => Ok((InstView::Plain(Inst::Store(spec_store_op(b)->Some_0, m)), q)),
            }
        } else if b == 0x3F || b == 0x40 {
            match spec_byte(bytes, p) {
                Err(e) => Err(e),
                Ok((_, q)) => Ok(
                    (InstView::Plain(if b == 0x3F { Inst::MemorySize } else { Inst::MemoryGrow }), q),
                ),
            }
        } else if b == 0x41 {
            match spec_signed(bytes, p, 5, 32) {
                Err(e) => Err(e),
                Ok((v, q)) => Ok((InstView::Plain(Inst::I32Const(v as i32)), q)),
            }
        } else if b == 0x42 {
            match spec_signed(bytes, p, 10, 64) {
                Err(e) => Err(e),
                Ok((v, q)) => Ok((InstView::Plain(Inst::I64Const(v as i64)), q)),
            }
        } else if b == 0x43 {
            match spec_fixed(bytes, p, 4) {
                Err(e) => Err(e),
                Ok((v, q)) => Ok((InstView::Plain(Inst::F32Const((v % 0x1_0000_0000) as u32)), q)),
            }
        } else if b == 0x44 {
            match spec_fixed(bytes, p, 8) {
                Err(e) => Err(e),
                Ok((v, q)) => Ok((InstView::Plain(Inst::F64Const(v)), q)),
            }
        } else {
            match spec_plain(b) {
                Some(i) => Ok((InstView::Plain(i), p)),
                None => Err(spec_fail(DecodeErrorKind::UnknownOpcode(b), pos)),
            }
        },
    }
}

/// The instructions from `pos` up to the byte 0x0B or 0x05 that ends
/// them, that byte, and the position after it.
pub open spec fn spec_body(bytes: Seq<u8>, pos: int) -> Result<(Seq<InstView>, u8, int), DecodeError>
    decreases bytes.len() - pos, 1nat,
{
    match spec_byte(bytes, pos) {
        Err(e) => Err(e),
        Ok((b, p)) => if b == 0x0B || b == 0x05 {
            Ok((Seq::empty(), b, p))
        } else {
            match spec_instr(bytes, pos) {
                Err(e) => Err(e),
                Ok((i, q)) => if q <= pos || q > bytes.len() {
                    Err(spec_fail(DecodeErrorKind::Malformed, pos))
                } else {
                    spec_body_after(seq![i], spec_body(bytes, q))
                },
            }
        },
    }
}

/// The expression at `pos` and the position after it: instructions that
/// the byte 0x0B ends.
pub open spec fn spec_expr(bytes: Seq<u8>, pos: int) -> Result<(Seq<InstView>, int), DecodeError> {
    match spec_body(bytes, pos) {
        Err(e) => Err(e),
        Ok((s, t, q)) => if t == 0x0B {
            Ok((s, q))
        } else {
            Err(spec_fail(DecodeErrorKind::Malformed, q - 1))
        },
    }
}

/// The global at `pos` and the position after it: its type and its
/// initializer.
pub open spec fn spec_global(bytes: Seq<u8>, pos: int) -> Result<(GlobalView, int), DecodeError> {
    match spec_globaltype(bytes, pos) {
        Err(e) => Err(e),
        Ok((typ, p)) => match spec_expr(bytes, p) {
            Err(e) => Err(e),
            Ok((init, q)) => Ok((GlobalView { typ, init }, q)),
        },
    }
}

/// The byte at `pos` that says that an element segment holds function
/// indices, and the position after it.
pub open spec fn spec_elemkind(bytes: Seq<u8>, pos: int) -> Result<((), int), DecodeError> {
    match spec_byte(bytes, pos) {
        Err(e) => Err(e),
        Ok((b, p)) => if b == 0 {
            Ok(((), p))
        } else {
            Err(spec_fail(DecodeErrorKind::Malformed, pos))
        },
    }
}

/// A count and as many function indices at `pos`, and the position after
/// them.
pub open spec fn spec_funcs(bytes: Seq<u8>, pos: int) -> Result<(Seq<FuncIdx>, int), DecodeError> {
    match spec_u32(bytes, pos) {
        Err(e) => Err(e),
        Ok((n, p)) => spec_funcidxs(bytes, p, n as nat),
    }
}

/// The element segment at `pos` and the position after it. A flag selects
/// the form: 0 is active in table 0, 1 passive, 2 active in a named
/// table, 3 declarative.
pub open spec fn spec_elem(bytes: Seq<u8>, pos: int) -> Result<(ElemView, int), DecodeError> {
    match spec_u32(bytes, pos) {
        Err(e) => Err(e),
        Ok((flag, p)) => if flag == 0 {
            match spec_expr(bytes, p) {
                Err(e) => Err(e),
                Ok((offset, q)) => match spec_funcs(bytes, q) {
                    Err(e) => Err(e),
                    Ok((init, r)) => Ok(
                        (
                            ElemView {
                                typ: Reftype::Funcref,
                                init,
                                mode: ElemModeView::Active { table: TableIdx(0), offset },
                            },
                            r,
                        ),
                    ),
                },
            }
        } else if flag == 1 || flag == 3 {
            match spec_elemkind(bytes, p) {
                Err(e) => Err(e),
                Ok((_, q)) => match spec_funcs(bytes, q) {
                    Err(e) => Err(e),
                    Ok((init, r)) => Ok(
                        (
                            ElemView {
                                typ: Reftype::Funcref,
                                init,
                                mode: if flag == 1 {
                                    ElemModeView::Passive
                                } else {
                                    ElemModeView::Declarative
                                },
                            },
                            r,
                        ),
                    ),
                },
            }
        } else if flag == 2 {
            match spec_u32(bytes, p) {
                Err(e) => Err(e),
                Ok((table, q)) => match spec_expr(bytes, q) {
                    Err(e) => Err(e),
                    Ok((offset, r)) => match spec_elemkind(bytes, r) {
                        Err(e) => Err(e),
                        Ok((_, s)) => match spec_funcs(bytes, s) {
                            Err(e) => Err(e),
                            Ok((init, t)) => Ok(
                                (
                                    ElemView {
                                        typ: Reftype::Funcref,
                                        init,
                                        mode: ElemModeView::Active { table: TableIdx(table), offset },
                                    },
                                    t,
                                ),
                            ),
                        },
                    },
                },
            }
        } else {
            Err(spec_fail(DecodeErrorKind::Malformed, pos))
        },
    }
}

/// The data segment at `pos` and the position after it. A kind selects
/// the form: 0 is active in memory 0, 1 passive, 2 active in a named
/// memory.
pub open spec fn spec_data(bytes: Seq<u8>, pos: int) -> Result<(DataView, int), DecodeError> {
    match spec_u32(bytes, pos) {
        Err(e) => Err(e),
        Ok((kind, p)) => if kind == 0 {
            match spec_expr(bytes, p) {
                Err(e) => Err(e),
                Ok((offset, q)) => match spec_blob(bytes, q) {
                    Err(e) => Err(e),
                    Ok((init, r)) => Ok(
                        (
                            DataView {
                                init,
                                mode: DatamodeView::Active { memory: MemIdx(0), offset },
                            },
                            r,
                        ),
                    ),
                },
            }
        } else if kind == 1 {
            match spec_blob(bytes, p) {
                Err(e) => Err(e),
                Ok((init, r)) => Ok((DataView { init, mode: DatamodeView::Passive }, r)),
            }
        } else if kind == 2 {
            match spec_u32(bytes, p) {
                Err(e) => Err(e),
                Ok((memory, q)) => match spec_expr(bytes, q) {
                    Err(e) => Err(e),
                    Ok((offset, r)) => match spec_blob(bytes, r) {
                        Err(e) => Err(e),
                        Ok((init, s)) => Ok(
                            (
                                DataView {
                                    init,
                                    mode: DatamodeView::Active { memory: MemIdx(memory), offset },
                                },
                                s,
                            ),
                        ),
                    },
                },
            }
        } else {
            Err(spec_fail(DecodeErrorKind::Malformed, pos))
        },
    }
}

/// The body of a function of type `typ` at `pos`, and the position after
/// it: its size in bytes, its declarations of locals, and its expression,
/// which together are as long as the size says.
pub open spec fn spec_code(bytes: Seq<u8>, pos: int, typ: TypeIdx) -> Result<(FuncView, int), DecodeError> {
    match spec_u32(bytes, pos) {
        Err(e) => Err(e),
        Ok((size, p)) => match spec_u32(bytes, p) {
            Err(e) => Err(e),
            Ok((n, q)) => match spec_locals(bytes, q, n as nat) {
                Err(e) => Err(e),
                Ok((locals, r)) => match spec_expr(bytes, r) {
                    Err(e) => Err(e),
                    Ok((body, s)) => if s - p == size {
                        Ok((FuncView { typ, locals, body }, s))
                    } else {
                        Err(spec_fail(DecodeErrorKind::SizeMismatch, p))
                    },
                },
            },
        },
    }
}

/// The `count` function bodies from `pos` on, and the position after them:
/// body `k + j` has the type that the function section gave to function
/// `k + j`, and a body without such a type is an error.
pub open spec fn spec_codes(bytes: Seq<u8>, pos: int, count: nat, types: Seq<TypeIdx>, k: nat) -> Result<
    (Seq<FuncView>, int),
    DecodeError,
>
    decreases count,
{
    if count == 0 {
        Ok((Seq::empty(), pos))
    } else if k >= types.len() {
        Err(spec_fail(DecodeErrorKind::Malformed, pos))
    } else {
        match spec_code(bytes, pos, types[k as int]) {
            Err(e) => Err(e),
            Ok((f, p)) => spec_cons(f, spec_codes(bytes, p, (count - 1) as nat, types, k + 1)),
        }
    }
}

/// The `count` function types from `pos` on, and the position after them.
pub open spec fn spec_functypes(bytes: Seq<u8>, pos: int, count: nat) -> Result<(Seq<(Seq<ValType>, Seq<ValType>)>, int), DecodeError>
    decreases count,
{
    if count == 0 {
        Ok((Seq::empty(), pos))
    } else {
        match spec_functype(bytes, pos) {
            Err(e) => Err(e),
            Ok((x, p)) => spec_cons(x, spec_functypes(bytes, p, (count - 1) as nat)),
        }
    }
}

/// The `count` type indices from `pos` on, and the position after them.
pub open spec fn spec_typeidxs(bytes: Seq<u8>, pos: int, count: nat) -> Result<(Seq<TypeIdx>, int), DecodeError>
    decreases count,
{
    if count == 0 {
        Ok((Seq::empty(), pos))
    } else {
        match spec_typeidx(bytes, pos) {
            Err(e) => Err(e),
            Ok((x, p)) => spec_cons(x, spec_typeidxs(bytes, p, (count - 1) as nat)),
        }
    }
}

/// The `count` function indices from `pos` on, and the position after them.
pub open spec fn spec_funcidxs(bytes: Seq<u8>, pos: int, count: nat) -> Result<(Seq<FuncIdx>, int), DecodeError>
    decreases count,
{
    if count == 0 {
        Ok((Seq::empty(), pos))
    } else {
        match spec_funcidx(bytes, pos) {
            Err(e) => Err(e),
            Ok((x, p)) => spec_cons(x, spec_funcidxs(bytes, p, (count - 1) as nat)),
        }
    }
}

/// The `count` label indices from `pos` on, and the position after them.
pub open spec fn spec_labelidxs(bytes: Seq<u8>, pos: int, count: nat) -> Result<(Seq<LabelIdx>, int), DecodeError>
    decreases count,
{
    if count == 0 {
        Ok((Seq::empty(), pos))
    } else {
        match spec_labelidx(bytes, pos) {
            Err(e) => Err(e),
            Ok((x, p)) => spec_cons(x, spec_labelidxs(bytes, p, (count - 1) as nat)),
        }
    }
}

/// The `count` imports from `pos` on, and the position after them.
pub open spec fn spec_imports(bytes: Seq<u8>, pos: int, count: nat) -> Result<(Seq<ImportView>, int), DecodeError>
    decreases count,
{
    if count == 0 {
        Ok((Seq::empty(), pos))
    } else {
        match spec_import(bytes, pos) {
            Err(e) => Err(e),
            Ok((x, p)) => spec_cons(x, spec_imports(bytes, p, (count - 1) as nat)),
        }
    }
}

/// The `count` table types from `pos` on, and the position after them.
pub open spec fn spec_tabletypes(bytes: Seq<u8>, pos: int, count: nat) -> Result<(Seq<TableType>, int), DecodeError>
    decreases count,
{
    if count == 0 {
        Ok((Seq::empty(), pos))
    } else {
        match spec_tabletype(bytes, pos) {
            Err(e) => Err(e),
            Ok((x, p)) => spec_cons(x, spec_tabletypes(bytes, p, (count - 1) as nat)),
        }
    }
}

/// The `count` memory types from `pos` on, and the position after them.
pub open spec fn spec_memtypes(bytes: Seq<u8>, pos: int, count: nat) -> Result<(Seq<MemType>, int), DecodeError>
    decreases count,
{
    if count == 0 {
        Ok((Seq::empty(), pos))
    } else {
        match spec_memtype(bytes, pos) {
            Err(e) => Err(e),
            Ok((x, p)) => spec_cons(x, spec_memtypes(bytes, p, (count - 1) as nat)),
        }
    }
}

/// The `count` globals from `pos` on, and the position after them.
pub open spec fn spec_globals(bytes: Seq<u8>, pos: int, count: nat) -> Result<(Seq<GlobalView>, int), DecodeError>
    decreases count,
{
    if count == 0 {
        Ok((Seq::empty(), pos))
    } else {
        match spec_global(bytes, pos) {
            Err(e) => Err(e),
            Ok((x, p)) => spec_cons(x, spec_globals(bytes, p, (count - 1) as nat)),
        }
    }
}

/// The `count` exports from `pos` on, and the position after them.
pub open spec fn spec_exports(bytes: Seq<u8>, pos: int, count: nat) -> Result<(Seq<ExportView>, int), DecodeError>
    decreases count,
{
    if count == 0 {
        Ok((Seq::empty(), pos))
    } else {
        match spec_export(bytes, pos) {
            Err(e) => Err(e),
            Ok((x, p)) => spec_cons(x, spec_exports(bytes, p, (count - 1) as nat)),
        }
    }
}

/// The `count` declarations of locals from `pos` on, and the position after them.
pub open spec fn spec_locals(bytes: Seq<u8>, pos: int, count: nat) -> Result<(Seq<Locals>, int), DecodeError>
    decreases count,
{
    if count == 0 {
        Ok((Seq::empty(), pos))
    } else {
        match spec_local(bytes, pos) {
            Err(e) => Err(e),
            Ok((x, p)) => spec_cons(x, spec_locals(bytes, p, (count - 1) as nat)),
        }
    }
}

/// The `count` element segments from `pos` on, and the position after them.
pub open spec fn spec_elems(bytes: Seq<u8>, pos: int, count: nat) -> Result<(Seq<ElemView>, int), DecodeError>
    decreases count,
{
    if count == 0 {
        Ok((Seq::empty(), pos))
    } else {
        match spec_elem(bytes, pos) {
            Err(e) => Err(e),
            Ok((x, p)) => spec_cons(x, spec_elems(bytes, p, (count - 1) as nat)),
        }
    }
}

/// The `count` data segments from `pos` on, and the position after them.
pub open spec fn spec_datas(bytes: Seq<u8>, pos: int, count: nat) -> Result<(Seq<DataView>, int), DecodeError>
    decreases count,
{
    if count == 0 {
        Ok((Seq::empty(), pos))
    } else {
        match spec_data(bytes, pos) {
            Err(e) => Err(e),
            Ok((x, p)) => spec_cons(x, spec_datas(bytes, p, (count - 1) as nat)),
        }
    }
}

/// The section that a byte names.
pub open spec fn spec_section_id(b: u8) -> Option<SectionId> {
    if b == 0 {
        Some(SectionId::Custom)
    } else if b == 1 {
        Some(SectionId::Type)
    } else if b == 2 {
        Some(SectionId::Import)
    } else if b == 3 {
        Some(SectionId::Function)
    } else if b == 4 {
        Some(SectionId::Table)
    } else if b == 5 {
        Some(SectionId::Memory)
    } else if b == 6 {
        Some(SectionId::Global)
    } else if b == 7 {
        Some(SectionId::Export)
    } else if b == 8 {
        Some(SectionId::Start)
    } else if b == 9 {
        Some(SectionId::Element)
    } else if b == 10 {
        Some(SectionId::Code)
    } else if b == 11 {
        Some(SectionId::Data)
    } else if b == 12 {
        Some(SectionId::DataCount)
    } else {
        None
    }
}

/// The module with nothing in it.
pub open spec fn spec_empty_module() -> ModuleView {
    ModuleView {
        types: Seq::empty(),
        funcs: Seq::empty(),
        tables: Seq::empty(),
        mems: Seq::empty(),
        globals: Seq::empty(),
        elems: Seq::empty(),
        datas: Seq::empty(),
        start: None,
        imports: Seq::empty(),
        exports: Seq::empty(),
    }
}

/// The module `m` and the types `ft` of the function section after the
/// body of a section of `size` bytes at `pos` was read, and the position
/// after the body. The body of every section but a custom one is a count
/// followed by as many entries, which are appended to what the module
/// holds; the start section is one function index.
pub open spec fn spec_section(
    id: SectionId,
    bytes: Seq<u8>,
    pos: int,
    size: u32,
    m: ModuleView,
    ft: Seq<TypeIdx>,
) -> Result<(ModuleView, Seq<TypeIdx>, int), DecodeError> {
    match id {
        SectionId::Custom => if pos + size <= bytes.len() {
            Ok((m, ft, pos + size))
        } else {
            Err(spec_fail(DecodeErrorKind::UnexpectedEof, bytes.len() as int))
        },
        SectionId::Start => match spec_funcidx(bytes, pos) {
            Err(e) => Err(e),
            Ok((f, p)) => Ok((ModuleView { start: Some(f), ..m }, ft, p)),
        },
        SectionId::DataCount => match spec_u32(bytes, pos) {
            Err(e) => Err(e),
            Ok((_, p)) => Ok((m, ft, p)),
        },
        _ => match spec_u32(bytes, pos) {
            Err(e) => Err(e),
            Ok((n, p)) => match id {
                SectionId::Type => match spec_functypes(bytes, p, n as nat) {
                    Err(e) => Err(e),
                    Ok((v, q)) => Ok((ModuleView { types: m.types + v, ..m }, ft, q)),
                },
                SectionId::Import => match spec_imports(bytes, p, n as nat) {
                    Err(e) => Err(e),
                    Ok((v, q)) => Ok((ModuleView { imports: m.imports + v, ..m }, ft, q)),
                },
                SectionId::Function => match spec_typeidxs(bytes, p, n as nat) {
                    Err(e) => Err(e),
                    Ok((v, q)) => Ok((m, ft + v, q)),
                },
                SectionId::Table => match spec_tabletypes(bytes, p, n as nat) {
                    Err(e) => Err(e),
                    Ok((v, q)) => Ok((ModuleView { tables: m.tables + v, ..m }, ft, q)),
                },
                SectionId::Memory => match spec_memtypes(bytes, p, n as nat) {
                    Err(e) => Err(e),
                    Ok((v, q)) => Ok((ModuleView { mems: m.mems + v, ..m }, ft, q)),
                },
                SectionId::Global => match spec_globals(bytes, p, n as nat) {
                    Err(e) => Err(e),
                    Ok((v, q)) => Ok((ModuleView { globals: m.globals + v, ..m }, ft, q)),
                },
                SectionId::Export => match spec_exports(bytes, p, n as nat) {
                    Err(e) => Err(e),
                    Ok((v, q)) => Ok((ModuleView { exports: m.exports + v, ..m }, ft, q)),
                },
                SectionId::Element => match spec_elems(bytes, p, n as nat) {
                    Err(e) => Err(e),
                    Ok((v, q)) => Ok((ModuleView { elems: m.elems + v, ..m }, ft, q)),
                },
                SectionId::Code => match spec_codes(bytes, p, n as nat, ft, 0) {
                    Err(e) => Err(e),
                    Ok((v, q)) => Ok((ModuleView { funcs: m.funcs + v, ..m }, ft, q)),
                },
                _ => match spec_datas(bytes, p, n as nat) {
                    Err(e) => Err(e),
                    Ok((v, q)) => Ok((ModuleView { datas: m.datas + v, ..m }, ft, q)),
                },
            },
        },
    }
}

/// The module `m` and the types `ft` after the section at `pos` was read,
/// and the position after it: a byte that names the section, its size in
/// bytes, and a body of exactly that size.
pub open spec fn spec_one_section(bytes: Seq<u8>, pos: int, m: ModuleView, ft: Seq<TypeIdx>) -> Result<
    (ModuleView, Seq<TypeIdx>, int),
    DecodeError,
> {
    match spec_byte(bytes, pos) {
        Err(e) => Err(e),
        Ok((b, p0)) => match spec_section_id(b) {
            None => Err(spec_fail(DecodeErrorKind::InvalidSectionId(b), pos)),
            Some(id) => match spec_u32(bytes, p0) {
                Err(e) => Err(e),
                Ok((size, p)) => match spec_section(id, bytes, p, size, m, ft) {
                    Err(e) => Err(e),
                    Ok((m2, ft2, q)) => if q != p + size {
                        Err(spec_fail(DecodeErrorKind::SizeMismatch, p))
                    } else {
                        Ok((m2, ft2, q))
                    },
                },
            },
        }
    }
}

/// The module after the sections from `pos` to the end of the bytes were
/// read into `m`.
pub open spec fn spec_sections(bytes: Seq<u8>, pos: int, m: ModuleView, ft: Seq<TypeIdx>) -> Result<
    ModuleView,
    DecodeError,
>
    decreases bytes.len() - pos,
{
    if pos >= bytes.len() || pos < 0 {
        Ok(m)
    } else {
        match spec_one_section(bytes, pos, m, ft) {
            Err(e) => Err(e),
            Ok((m2, ft2, q)) => if q <= pos || q > bytes.len() {
                Err(spec_fail(DecodeErrorKind::SizeMismatch, pos))
            } else {
                spec_sections(bytes, q, m2, ft2)
            },
        }
    }
}

/// The magic number at `pos` and the position after it.
pub open spec fn spec_magic(bytes: Seq<u8>, pos: int) -> Result<((), int), DecodeError> {
    if pos < 0 || pos + 4 > bytes.len() {
        Err(spec_fail(DecodeErrorKind::UnexpectedEof, bytes.len() as int))
    } else if bytes[pos] == 0x00 && bytes[pos + 1] == 0x61 && bytes[pos + 2] == 0x73 && bytes[pos
        + 3] == 0x6D {
        Ok(((), pos + 4))
    } else {
        Err(spec_fail(DecodeErrorKind::InvalidMagic, pos))
    }
}

/// The version 1 at `pos` and the position after it.
pub open spec fn spec_version(bytes: Seq<u8>, pos: int) -> Result<((), int), DecodeError> {
    if pos < 0 || pos + 4 > bytes.len() {
        Err(spec_fail(DecodeErrorKind::UnexpectedEof, bytes.len() as int))
    } else if bytes[pos] == 0x01 && bytes[pos + 1] == 0x00 && bytes[pos + 2] == 0x00 && bytes[pos
        + 3] == 0x00 {
        Ok(((), pos + 4))
    } else {
        Err(spec_fail(DecodeErrorKind::InvalidVersion, pos))
    }
}

/// The module that bytes encode: the magic number, the version 1, and
/// sections to the end.
pub open spec fn spec_module(bytes: Seq<u8>) -> Result<ModuleView, DecodeError> {
    match spec_magic(bytes, 0) {
        Err(e) => Err(e),
        Ok((_, p)) => match spec_version(bytes, p) {
            Err(e) => Err(e),
            Ok((_, q)) => spec_sections(bytes, q, spec_empty_module(), Seq::empty()),
        },
    }
}

impl<'a> Parser<'a> {
    /// Reads a value type.
    pub fn parse_valtype(&mut self) -> (r: Result<ValType, DecodeError>)
        requires
            old(self).wf(),
        ensures
            final(self).stream == old(self).stream,
            final(self).wf(),
            final(self).pos >= old(self).pos,
            match spec_valtype(old(self).stream@, old(self).pos as int) {
                Ok((v, next)) => r matches Ok(x) && x == v && final(self).pos == next,
                Err(e) => r matches Err(x) && x == e,
            },
    {
        let at: usize = self.pos;
        let b = self.parse_byte()?;
        match ValType::try_from(b) {
            Ok(t) => Ok(t),
            Err(_) => Err(Self::fail(DecodeErrorKind::InvalidValType(b), at)),
        }
    }

    /// Reads a reference type.
    pub fn parse_reftype(&mut self) -> (r: Result<Reftype, DecodeError>)
        requires
            old(self).wf(),
        ensures
            final(self).stream == old(self).stream,
            final(self).wf(),
            final(self).pos >= old(self).pos,
            match spec_reftype(old(self).stream@, old(self).pos as int) {
                Ok((v, next)) => r matches Ok(x) && x == v && final(self).pos == next,
                Err(e) => r matches Err(x) && x == e,
            },
    {
        let at: usize = self.pos;
        let b = self.parse_byte()?;
        if b == 0x70 {
            Ok(Reftype::Funcref)
        } else if b == 0x6F {
            Ok(Reftype::Externref)
        } else {
            Err(Self::fail(DecodeErrorKind::Malformed, at))
        }
    }

    /// Reads limits.
    pub fn parse_limits(&mut self) -> (r: Result<Limits, DecodeError>)
        requires
            old(self).wf(),
        ensures
            final(self).stream == old(self).stream,
            final(self).wf(),
            final(self).pos >= old(self).pos,
            match spec_limits(old(self).stream@, old(self).pos as int) {
                Ok((v, next)) => r matches Ok(x) && x == v && final(self).pos == next,
                Err(e) => r matches Err(x) && x == e,
            },
    {
        let at: usize = self.pos;
        let b = self.parse_byte()?;
        if b == 0 {
            let min = self.parse_u32()?;
            Ok(Limits { min, max: None })
        } else if b == 1 {
            let min = self.parse_u32()?;
            let max = self.parse_u32()?;
            Ok(Limits { min, max: Some(max) })
        } else {
            Err(Self::fail(DecodeErrorKind::Malformed, at))
        }
    }

    /// Reads a table type.
    pub fn parse_tabletype(&mut self) -> (r: Result<TableType, DecodeError>)
        requires
            old(self).wf(),
        ensures
            final(self).stream == old(self).stream,
            final(self).wf(),
            final(self).pos >= old(self).pos,
            match spec_tabletype(old(self).stream@, old(self).pos as int) {
                Ok((v, next)) => r matches Ok(x) && x == v && final(self).pos == next,
                Err(e) => r matches Err(x) && x == e,
            },
    {
        let reftype = self.parse_reftype()?;
        let limits = self.parse_limits()?;
        Ok(TableType { reftype, limits })
    }

    /// Reads a memory type.
    pub fn parse_memtype(&mut self) -> (r: Result<MemType, DecodeError>)
        requires
            old(self).wf(),
        ensures
            final(self).stream == old(self).stream,
            final(self).wf(),
            final(self).pos >= old(self).pos,
            match spec_memtype(old(self).stream@, old(self).pos as int) {
                Ok((v, next)) => r matches Ok(x) && x == v && final(self).pos == next,
                Err(e) => r matches Err(x) && x == e,
            },
    {
        let limits = self.parse_limits()?;
        Ok(MemType { limits })
    }

    /// Reads a global type.
    pub fn parse_globaltype(&mut self) -> (r: Result<GlobalType, DecodeError>)
        requires
            old(self).wf(),
        ensures
            final(self).stream == old(self).stream,
            final(self).wf(),
            final(self).pos >= old(self).pos,
            match spec_globaltype(old(self).stream@, old(self).pos as int) {
                Ok((v, next)) => r matches Ok(x) && x == v && final(self).pos == next,
                Err(e) => r matches Err(x) && x == e,
            },
    {
        let t = self.parse_valtype()?;
        let at: usize = self.pos;
        let b = self.parse_byte()?;
        if b == 0 {
            Ok(GlobalType { mutable: false, t })
        } else if b == 1 {
            Ok(GlobalType { mutable: true, t })
        } else {
            Err(Self::fail(DecodeErrorKind::Malformed, at))
        }
    }

    /// Reads a block type.
    pub fn parse_blocktype(&mut self) -> (r: Result<BlockType, DecodeError>)
        requires
            old(self).wf(),
        ensures
            final(self).stream == old(self).stream,
            final(self).wf(),
            final(self).pos >= old(self).pos,
            match spec_blocktype(old(self).stream@, old(self).pos as int) {
                Ok((v, next)) => r matches Ok(x) && x == v && final(self).pos == next && next > old(
                    self,
                ).pos,
                Err(e) => r matches Err(x) && x == e,
            },
    {
        let at: usize = self.pos;
        let b = self.peek_byte()?;
        if b == 0x40 {
            self.pos = self.pos + 1;
            return Ok(BlockType::Empty);
        }
        match ValType::try_from(b) {
            Ok(t) => {
                self.pos = self.pos + 1;
                Ok(BlockType::Inline(t))
            },
            Err(_) => {
                let v = self.parse_signed(5, 33)?;
                if v >= 0 {
                    Ok(BlockType::Type(TypeIdx(v as u32)))
                } else {
                    Err(Self::fail(DecodeErrorKind::Malformed, at))
                }
            },
        }
    }

    /// Reads the immediate of a load or store.
    pub fn parse_memarg(&mut self) -> (r: Result<MemArg, DecodeError>)
        requires
            old(self).wf(),
        ensures
            final(self).stream == old(self).stream,
            final(self).wf(),
            final(self).pos >= old(self).pos,
            match spec_memarg(old(self).stream@, old(self).pos as int) {
                Ok((v, next)) => r matches Ok(x) && x == v && final(self).pos == next,
                Err(e) => r matches Err(x) && x == e,
            },
    {
        let align = self.parse_u32()?;
        let offset = self.parse_u32()?;
        Ok(MemArg { align, offset })
    }

    /// Reads counted bytes.
    pub fn parse_blob(&mut self) -> (r: Result<Vec<u8>, DecodeError>)
        requires
            old(self).wf(),
        ensures
            final(self).stream == old(self).stream,
            final(self).wf(),
            final(self).pos >= old(self).pos,
            match spec_blob(old(self).stream@, old(self).pos as int) {
                Ok((v, next)) => r matches Ok(x) && x@ == v && final(self).pos == next,
                Err(e) => r matches Err(x) && x == e,
            },
    {
        let n = self.parse_u32()?;
        self.read_bytes(n as usize)
    }

    /// Reads a name.
    pub fn parse_name(&mut self) -> (r: Result<String, DecodeError>)
        requires
            old(self).wf(),
        ensures
            final(self).stream == old(self).stream,
            final(self).wf(),
            final(self).pos >= old(self).pos,
            match spec_name(old(self).stream@, old(self).pos as int) {
                Ok((v, next)) => r matches Ok(x) && x@ == v && final(self).pos == next,
                Err(e) => r matches Err(x) && x == e,
            },
    {
        let at: usize = self.pos;
        let bytes = self.parse_blob()?;
        match string_from_utf8(bytes) {
            Some(s) => Ok(s),
            None => Err(Self::fail(DecodeErrorKind::InvalidUtf8, at)),
        }
    }

    /// Reads `count` value types.
    pub fn parse_valtypes(&mut self, count: u32) -> (r: Result<Vec<ValType>, DecodeError>)
        requires
            old(self).wf(),
        ensures
            final(self).stream == old(self).stream,
            final(self).wf(),
            final(self).pos >= old(self).pos,
            match spec_valtypes(old(self).stream@, old(self).pos as int, count as nat) {
                Ok((v, next)) => r matches Ok(x) && x@ == v && final(self).pos == next,
                Err(e) => r matches Err(x) && x == e,
            },
    {
        let mut out: Vec<ValType> = Vec::new();
        let mut k: u32 = 0;
        let ghost bytes = self.stream@;
        let ghost start = self.pos as int;
        proof {
            assert(out@ =~= Seq::<ValType>::empty());
            lemma_after_empty(spec_valtypes(bytes, start, count as nat));
        }
        while k < count
            invariant
                k <= count,
                self.wf(),
                self.stream == old(self).stream,
                bytes == self.stream@,
                start == old(self).pos,
                start <= self.pos,
                spec_valtypes(bytes, start, count as nat) == spec_after(
                    out@,
                    spec_valtypes(bytes, self.pos as int, (count - k) as nat),
                ),
            decreases count - k,
        {
            let ghost acc = out@;
            let ghost here = self.pos as int;
            let x = self.parse_valtype()?;
            proof {
                lemma_after_step(acc, x, spec_valtypes(bytes, self.pos as int, (count - k - 1) as nat));
            }
            out.push(x);
            proof {
                assert(out@ =~= acc.push(x));
            }
            k = k + 1;
        }
        proof {
            lemma_after_done(out@, self.pos as int);
        }
        Ok(out)
    }

    /// Reads a result type.
    pub fn parse_resulttype(&mut self) -> (r: Result<ResultType, DecodeError>)
        requires
            old(self).wf(),
        ensures
            final(self).stream == old(self).stream,
            final(self).wf(),
            final(self).pos >= old(self).pos,
            match spec_resulttype(old(self).stream@, old(self).pos as int) {
                Ok((v, next)) => r matches Ok(x) && x@ == v && final(self).pos == next,
                Err(e) => r matches Err(x) && x == e,
            },
    {
        let n = self.parse_u32()?;
        let types = self.parse_valtypes(n)?;
        Ok(ResultType { types })
    }

    /// Reads a function type.
    pub fn parse_functype(&mut self) -> (r: Result<FuncType, DecodeError>)
        requires
            old(self).wf(),
        ensures
            final(self).stream == old(self).stream,
            final(self).wf(),
            final(self).pos >= old(self).pos,
            match spec_functype(old(self).stream@, old(self).pos as int) {
                Ok((v, next)) => r matches Ok(x) && x@ == v && final(self).pos == next,
                Err(e) => r matches Err(x) && x == e,
            },
    {
        let at: usize = self.pos;
        let header = self.parse_byte()?;
        if header != 0x60 {
            return Err(Self::fail(DecodeErrorKind::Malformed, at));
        }
        let from = self.parse_resulttype()?;
        let to = self.parse_resulttype()?;
        Ok(FuncType { from, to })
    }

    /// Reads a type index.
    pub fn parse_typeidx(&mut self) -> (r: Result<TypeIdx, DecodeError>)
        requires
            old(self).wf(),
        ensures
            final(self).stream == old(self).stream,
            final(self).wf(),
            final(self).pos >= old(self).pos,
            match spec_typeidx(old(self).stream@, old(self).pos as int) {
                Ok((v, next)) => r matches Ok(x) && x == v && final(self).pos == next,
                Err(e) => r matches Err(x) && x == e,
            },
    {
        let idx = self.parse_u32()?;
        Ok(TypeIdx(idx))
    }

    /// Reads a function index.
    pub fn parse_funcidx(&mut self) -> (r: Result<FuncIdx, DecodeError>)
        requires
            old(self).wf(),
        ensures
            final(self).stream == old(self).stream,
            final(self).wf(),
            final(self).pos >= old(self).pos,
            match spec_funcidx(old(self).stream@, old(self).pos as int) {
                Ok((v, next)) => r matches Ok(x) && x == v && final(self).pos == next,
                Err(e) => r matches Err(x) && x == e,
            },
    {
        let idx = self.parse_u32()?;
        Ok(FuncIdx(idx))
    }

    /// Reads a label index.
    pub fn parse_labelidx(&mut self) -> (r: Result<LabelIdx, DecodeError>)
        requires
            old(self).wf(),
        ensures
            final(self).stream == old(self).stream,
            final(self).wf(),
            final(self).pos >= old(self).pos,
            match spec_labelidx(old(self).stream@, old(self).pos as int) {
                Ok((v, next)) => r matches Ok(x) && x == v && final(self).pos == next,
                Err(e) => r matches Err(x) && x == e,
            },
    {
        let idx = self.parse_u32()?;
        Ok(LabelIdx(idx))
    }

    /// Reads a table index.
    pub fn parse_tableidx(&mut self) -> (r: Result<TableIdx, DecodeError>)
        requires
            old(self).wf(),
        ensures
            final(self).stream == old(self).stream,
            final(self).wf(),
            final(self).pos >= old(self).pos,
            match spec_u32(old(self).stream@, old(self).pos as int) {
                Ok((v, next)) => r matches Ok(x) && x == TableIdx(v) && final(self).pos == next,
                Err(e) => r matches Err(x) && x == e,
            },
    {
        let idx = self.parse_u32()?;
        Ok(TableIdx(idx))
    }

    /// Reads a local index.
    pub fn parse_localidx(&mut self) -> (r: Result<LocalIdx, DecodeError>)
        requires
            old(self).wf(),
        ensures
            final(self).stream == old(self).stream,
            final(self).wf(),
            final(self).pos >= old(self).pos,
            match spec_u32(old(self).stream@, old(self).pos as int) {
                Ok((v, next)) => r matches Ok(x) && x == LocalIdx(v) && final(self).pos == next,
                Err(e) => r matches Err(x) && x == e,
            },
    {
        let idx = self.parse_u32()?;
        Ok(LocalIdx(idx))
    }

    /// Reads `count` function types.
    pub fn parse_functypes(&mut self, count: u32) -> (r: Result<Vec<FuncType>, DecodeError>)
        requires
            old(self).wf(),
        ensures
            final(self).stream == old(self).stream,
            final(self).wf(),
            final(self).pos >= old(self).pos,
            match spec_functypes(old(self).stream@, old(self).pos as int, count as nat) {
                Ok((v, next)) => r matches Ok(x) && Seq::new(x@.len(), |i: int| x@[i]@) == v && final(self).pos == next,
                Err(e) => r matches Err(x) && x == e,
            },
    {
        let mut out: Vec<FuncType> = Vec::new();
        let mut k: u32 = 0;
        let ghost bytes = self.stream@;
        let ghost start = self.pos as int;
        proof {
            assert(Seq::new(out@.len(), |i: int| out@[i]@) =~= Seq::<(Seq<ValType>, Seq<ValType>)>::empty());
            lemma_after_empty(spec_functypes(bytes, start, count as nat));
        }
        while k < count
            invariant
                k <= count,
                self.wf(),
                self.stream == old(self).stream,
                bytes == self.stream@,
                start == old(self).pos,
                start <= self.pos,
                spec_functypes(bytes, start, count as nat) == spec_after(
                    Seq::new(out@.len(), |i: int| out@[i]@),
                    spec_functypes(bytes, self.pos as int, (count - k) as nat),
                ),
            decreases count - k,
        {
            let ghost acc = Seq::new(out@.len(), |i: int| out@[i]@);
            let ghost here = self.pos as int;
            let x = self.parse_functype()?;
            proof {
                lemma_after_step(acc, x@, spec_functypes(bytes, self.pos as int, (count - k - 1) as nat));
            }
            out.push(x);
            proof {
                assert(Seq::new(out@.len(), |i: int| out@[i]@) =~= acc.push(x@));
            }
            k = k + 1;
        }
        proof {
            lemma_after_done(Seq::new(out@.len(), |i: int| out@[i]@), self.pos as int);
        }
        Ok(out)
    }

    /// Reads `count` type indices.
    pub fn parse_typeidxs(&mut self, count: u32) -> (r: Result<Vec<TypeIdx>, DecodeError>)
        requires
            old(self).wf(),
        ensures
            final(self).stream == old(self).stream,
            final(self).wf(),
            final(self).pos >= old(self).pos,
            match spec_typeidxs(old(self).stream@, old(self).pos as int, count as nat) {
                Ok((v, next)) => r matches Ok(x) && x@ == v && final(self).pos == next,
                Err(e) => r matches Err(x) && x == e,
            },
    {
        let mut out: Vec<TypeIdx> = Vec::new();
        let mut k: u32 = 0;
        let ghost bytes = self.stream@;
        let ghost start = self.pos as int;
        proof {
            assert(out@ =~= Seq::<TypeIdx>::empty());
            lemma_after_empty(spec_typeidxs(bytes, start, count as nat));
        }
        while k < count
            invariant
                k <= count,
                self.wf(),
                self.stream == old(self).stream,
                bytes == self.stream@,
                start == old(self).pos,
                start <= self.pos,
                spec_typeidxs(bytes, start, count as nat) == spec_after(
                    out@,
                    spec_typeidxs(bytes, self.pos as int, (count - k) as nat),
                ),
            decreases count - k,
        {
            let ghost acc = out@;
            let ghost here = self.pos as int;
            let x = self.parse_typeidx()?;
            proof {
                lemma_after_step(acc, x, spec_typeidxs(bytes, self.pos as int, (count - k - 1) as nat));
            }
            out.push(x);
            proof {
                assert(out@ =~= acc.push(x));
            }
            k = k + 1;
        }
        proof {
            lemma_after_done(out@, self.pos as int);
        }
        Ok(out)
    }

    /// Reads `count` function indices.
    pub fn parse_funcidxs(&mut self, count: u32) -> (r: Result<Vec<FuncIdx>, DecodeError>)
        requires
            old(self).wf(),
        ensures
            final(self).stream == old(self).stream,
            final(self).wf(),
            final(self).pos >= old(self).pos,
            match spec_funcidxs(old(self).stream@, old(self).pos as int, count as nat) {
                Ok((v, next)) => r matches Ok(x) && x@ == v && final(self).pos == next,
                Err(e) => r matches Err(x) && x == e,
            },
    {
        let mut out: Vec<FuncIdx> = Vec::new();
        let mut k: u32 = 0;
        let ghost bytes = self.stream@;
        let ghost start = self.pos as int;
        proof {
            assert(out@ =~= Seq::<FuncIdx>::empty());
            lemma_after_empty(spec_funcidxs(bytes, start, count as nat));
        }
        while k < count
            invariant
                k <= count,
                self.wf(),
                self.stream == old(self).stream,
                bytes == self.stream@,
                start == old(self).pos,
                start <= self.pos,
                spec_funcidxs(bytes, start, count as nat) == spec_after(
                    out@,
                    spec_funcidxs(bytes, self.pos as int, (count - k) as nat),
                ),
            decreases count - k,
        {
            let ghost acc = out@;
            let ghost here = self.pos as int;
            let x = self.parse_funcidx()?;
            proof {
                lemma_after_step(acc, x, spec_funcidxs(bytes, self.pos as int, (count - k - 1) as nat));
            }
            out.push(x);
            proof {
                assert(out@ =~= acc.push(x));
            }
            k = k + 1;
        }
        proof {
            lemma_after_done(out@, self.pos as int);
        }
        Ok(out)
    }

    /// Reads `count` label indices.
    pub fn parse_labelidxs(&mut self, count: u32) -> (r: Result<Vec<LabelIdx>, DecodeError>)
        requires
            old(self).wf(),
        ensures
            final(self).stream == old(self).stream,
            final(self).wf(),
            final(self).pos >= old(self).pos,
            match spec_labelidxs(old(self).stream@, old(self).pos as int, count as nat) {
                Ok((v, next)) => r matches Ok(x) && x@ == v && final(self).pos == next,
                Err(e) => r matches Err(x) && x == e,
            },
    {
        let mut out: Vec<LabelIdx> = Vec::new();
        let mut k: u32 = 0;
        let ghost bytes = self.stream@;
        let ghost start = self.pos as int;
        proof {
            assert(out@ =~= Seq::<LabelIdx>::empty());
            lemma_after_empty(spec_labelidxs(bytes, start, count as nat));
        }
        while k < count
            invariant
                k <= count,
                self.wf(),
                self.stream == old(self).stream,
                bytes == self.stream@,
                start == old(self).pos,
                start <= self.pos,
                spec_labelidxs(bytes, start, count as nat) == spec_after(
                    out@,
                    spec_labelidxs(bytes, self.pos as int, (count - k) as nat),
                ),
            decreases count - k,
        {
            let ghost acc = out@;
            let ghost here = self.pos as int;
            let x = self.parse_labelidx()?;
            proof {
                lemma_after_step(acc, x, spec_labelidxs(bytes, self.pos as int, (count - k - 1) as nat));
            }
            out.push(x);
            proof {
                assert(out@ =~= acc.push(x));
            }
            k = k + 1;
        }
        proof {
            lemma_after_done(out@, self.pos as int);
        }
        Ok(out)
    }

    /// Reads what an import describes.
    pub fn parse_import_desc(&mut self) -> (r: Result<ImportDesc, DecodeError>)
        requires
            old(self).wf(),
        ensures
            final(self).stream == old(self).stream,
            final(self).wf(),
            final(self).pos >= old(self).pos,
            match spec_import_desc(old(self).stream@, old(self).pos as int) {
                Ok((v, next)) => r matches Ok(x) && x == v && final(self).pos == next,
                Err(e) => r matches Err(x) && x == e,
            },
    {
        let at: usize = self.pos;
        let b = self.parse_byte()?;
        if b == 0 {
            let idx = self.parse_typeidx()?;
            Ok(ImportDesc::Func(idx))
        } else if b == 1 {
            let t = self.parse_tabletype()?;
            Ok(ImportDesc::Table(t))
        } else if b == 2 {
            let t = self.parse_memtype()?;
            Ok(ImportDesc::Mem(t))
        } else if b == 3 {
            let t = self.parse_globaltype()?;
            Ok(ImportDesc::Global(t))
        } else {
            Err(Self::fail(DecodeErrorKind::Malformed, at))
        }
    }

    /// Reads an import.
    pub fn parse_import(&mut self) -> (r: Result<Import, DecodeError>)
        requires
            old(self).wf(),
        ensures
            final(self).stream == old(self).stream,
            final(self).wf(),
            final(self).pos >= old(self).pos,
            match spec_import(old(self).stream@, old(self).pos as int) {
                Ok((v, next)) => r matches Ok(x) && x.deep() == v && final(self).pos == next,
                Err(e) => r matches Err(x) && x == e,
            },
    {
        let module = self.parse_name()?;
        let nm = self.parse_name()?;
        let desc = self.parse_import_desc()?;
        Ok(Import { module, nm, desc })
    }

    /// Reads what an export describes.
    pub fn parse_export_desc(&mut self) -> (r: Result<ExportDesc, DecodeError>)
        requires
            old(self).wf(),
        ensures
            final(self).stream == old(self).stream,
            final(self).wf(),
            final(self).pos >= old(self).pos,
            match spec_export_desc(old(self).stream@, old(self).pos as int) {
                Ok((v, next)) => r matches Ok(x) && x == v && final(self).pos == next,
                Err(e) => r matches Err(x) && x == e,
            },
    {
        let at: usize = self.pos;
        let typ = self.parse_byte()?;
        if typ > 3 {
            return Err(Self::fail(DecodeErrorKind::Malformed, at));
        }
        let idx = self.parse_u32()?;
        if typ == 0 {
            Ok(ExportDesc::Func(FuncIdx(idx)))
        } else if typ == 1 {
            Ok(ExportDesc::Table(TableIdx(idx)))
        } else if typ == 2 {
            Ok(ExportDesc::Mem(MemIdx(idx)))
        } else {
            Ok(ExportDesc::Global(GlobalIdx(idx)))
        }
    }

    /// Reads an export.
    pub fn parse_export(&mut self) -> (r: Result<Export, DecodeError>)
        requires
            old(self).wf(),
        ensures
            final(self).stream == old(self).stream,
            final(self).wf(),
            final(self).pos >= old(self).pos,
            match spec_export(old(self).stream@, old(self).pos as int) {
                Ok((v, next)) => r matches Ok(x) && x.deep() == v && final(self).pos == next,
                Err(e) => r matches Err(x) && x == e,
            },
    {
        let name = self.parse_name()?;
        let desc = self.parse_export_desc()?;
        Ok(Export { name, desc })
    }

    /// Reads a declaration of locals.
    pub fn parse_local(&mut self) -> (r: Result<Locals, DecodeError>)
        requires
            old(self).wf(),
        ensures
            final(self).stream == old(self).stream,
            final(self).wf(),
            final(self).pos >= old(self).pos,
            match spec_local(old(self).stream@, old(self).pos as int) {
                Ok((v, next)) => r matches Ok(x) && x == v && final(self).pos == next,
                Err(e) => r matches Err(x) && x == e,
            },
    {
        let n = self.parse_u32()?;
        let t = self.parse_valtype()?;
        Ok(Locals { n, t })
    }

    /// Reads `count` imports.
    pub fn parse_imports(&mut self, count: u32) -> (r: Result<Vec<Import>, DecodeError>)
        requires
            old(self).wf(),
        ensures
            final(self).stream == old(self).stream,
            final(self).wf(),
            final(self).pos >= old(self).pos,
            match spec_imports(old(self).stream@, old(self).pos as int, count as nat) {
                Ok((v, next)) => r matches Ok(x) && Seq::new(x@.len(), |i: int| x@[i].deep()) == v && final(self).pos == next,
                Err(e) => r matches Err(x) && x == e,
            },
    {
        let mut out: Vec<Import> = Vec::new();
        let mut k: u32 = 0;
        let ghost bytes = self.stream@;
        let ghost start = self.pos as int;
        proof {
            assert(Seq::new(out@.len(), |i: int| out@[i].deep()) =~= Seq::<ImportView>::empty());
            lemma_after_empty(spec_imports(bytes, start, count as nat));
        }
        while k < count
            invariant
                k <= count,
                self.wf(),
                self.stream == old(self).stream,
                bytes == self.stream@,
                start == old(self).pos,
                start <= self.pos,
                spec_imports(bytes, start, count as nat) == spec_after(
                    Seq::new(out@.len(), |i: int| out@[i].deep()),
                    spec_imports(bytes, self.pos as int, (count - k) as nat),
                ),
            decreases count - k,
        {
            let ghost acc = Seq::new(out@.len(), |i: int| out@[i].deep());
            let ghost here = self.pos as int;
            let x = self.parse_import()?;
            proof {
                lemma_after_step(acc, x.deep(), spec_imports(bytes, self.pos as int, (count - k - 1) as nat));
            }
            out.push(x);
            proof {
                assert(Seq::new(out@.len(), |i: int| out@[i].deep()) =~= acc.push(x.deep()));
            }
            k = k + 1;
        }
        proof {
            lemma_after_done(Seq::new(out@.len(), |i: int| out@[i].deep()), self.pos as int);
        }
        Ok(out)
    }

    /// Reads `count` table types.
    pub fn parse_tabletypes(&mut self, count: u32) -> (r: Result<Vec<TableType>, DecodeError>)
        requires
            old(self).wf(),
        ensures
            final(self).stream == old(self).stream,
            final(self).wf(),
            final(self).pos >= old(self).pos,
            match spec_tabletypes(old(self).stream@, old(self).pos as int, count as nat) {
                Ok((v, next)) => r matches Ok(x) && x@ == v && final(self).pos == next,
                Err(e) => r matches Err(x) && x == e,
            },
    {
        let mut out: Vec<TableType> = Vec::new();
        let mut k: u32 = 0;
        let ghost bytes = self.stream@;
        let ghost start = self.pos as int;
        proof {
            assert(out@ =~= Seq::<TableType>::empty());
            lemma_after_empty(spec_tabletypes(bytes, start, count as nat));
        }
        while k < count
            invariant
                k <= count,
                self.wf(),
                self.stream == old(self).stream,
                bytes == self.stream@,
                start == old(self).pos,
                start <= self.pos,
                spec_tabletypes(bytes, start, count as nat) == spec_after(
                    out@,
                    spec_tabletypes(bytes, self.pos as int, (count - k) as nat),
                ),
            decreases count - k,
        {
            let ghost acc = out@;
            let ghost here = self.pos as int;
            let x = self.parse_tabletype()?;
            proof {
                lemma_after_step(acc, x, spec_tabletypes(bytes, self.pos as int, (count - k - 1) as nat));
            }
            out.push(x);
            proof {
                assert(out@ =~= acc.push(x));
            }
            k = k + 1;
        }
        proof {
            lemma_after_done(out@, self.pos as int);
        }
        Ok(out)
    }

    /// Reads `count` memory types.
    pub fn parse_memtypes(&mut self, count: u32) -> (r: Result<Vec<MemType>, DecodeError>)
        requires
            old(self).wf(),
        ensures
            final(self).stream == old(self).stream,
            final(self).wf(),
            final(self).pos >= old(self).pos,
            match spec_memtypes(old(self).stream@, old(self).pos as int, count as nat) {
                Ok((v, next)) => r matches Ok(x) && x@ == v && final(self).pos == next,
                Err(e) => r matches Err(x) && x == e,
            },
    {
        let mut out: Vec<MemType> = Vec::new();
        let mut k: u32 = 0;
        let ghost bytes = self.stream@;
        let ghost start = self.pos as int;
        proof {
            assert(out@ =~= Seq::<MemType>::empty());
            lemma_after_empty(spec_memtypes(bytes, start, count as nat));
        }
        while k < count
            invariant
                k <= count,
                self.wf(),
                self.stream == old(self).stream,
                bytes == self.stream@,
                start == old(self).pos,
                start <= self.pos,
                spec_memtypes(bytes, start, count as nat) == spec_after(
                    out@,
                    spec_memtypes(bytes, self.pos as int, (count - k) as nat),
                ),
            decreases count - k,
        {
            let ghost acc = out@;
            let ghost here = self.pos as int;
            let x = self.parse_memtype()?;
            proof {
                lemma_after_step(acc, x, spec_memtypes(bytes, self.pos as int, (count - k - 1) as nat));
            }
            out.push(x);
            proof {
                assert(out@ =~= acc.push(x));
            }
            k = k + 1;
        }
        proof {
            lemma_after_done(out@, self.pos as int);
        }
        Ok(out)
    }

    /// Reads `count` exports.
    pub fn parse_exports(&mut self, count: u32) -> (r: Result<Vec<Export>, DecodeError>)
        requires
            old(self).wf(),
        ensures
            final(self).stream == old(self).stream,
            final(self).wf(),
            final(self).pos >= old(self).pos,
            match spec_exports(old(self).stream@, old(self).pos as int, count as nat) {
                Ok((v, next)) => r matches Ok(x) && Seq::new(x@.len(), |i: int| x@[i].deep()) == v && final(self).pos == next,
                Err(e) => r matches Err(x) && x == e,
            },
    {
        let mut out: Vec<Export> = Vec::new();
        let mut k: u32 = 0;
        let ghost bytes = self.stream@;
        let ghost start = self.pos as int;
        proof {
            assert(Seq::new(out@.len(), |i: int| out@[i].deep()) =~= Seq::<ExportView>::empty());
            lemma_after_empty(spec_exports(bytes, start, count as nat));
        }
        while k < count
            invariant
                k <= count,
                self.wf(),
                self.stream == old(self).stream,
                bytes == self.stream@,
                start == old(self).pos,
                start <= self.pos,
                spec_exports(bytes, start, count as nat) == spec_after(
                    Seq::new(out@.len(), |i: int| out@[i].deep()),
                    spec_exports(bytes, self.pos as int, (count - k) as nat),
                ),
            decreases count - k,
        {
            let ghost acc = Seq::new(out@.len(), |i: int| out@[i].deep());
            let ghost here = self.pos as int;
            let x = self.parse_export()?;
            proof {
                lemma_after_step(acc, x.deep(), spec_exports(bytes, self.pos as int, (count - k - 1) as nat));
            }
            out.push(x);
            proof {
                assert(Seq::new(out@.len(), |i: int| out@[i].deep()) =~= acc.push(x.deep()));
            }
            k = k + 1;
        }
        proof {
            lemma_after_done(Seq::new(out@.len(), |i: int| out@[i].deep()), self.pos as int);
        }
        Ok(out)
    }

    /// Reads `count` declarations of locals.
    pub fn parse_locals(&mut self, count: u32) -> (r: Result<Vec<Locals>, DecodeError>)
        requires
            old(self).wf(),
        ensures
            final(self).stream == old(self).stream,
            final(self).wf(),
            final(self).pos >= old(self).pos,
            match spec_locals(old(self).stream@, old(self).pos as int, count as nat) {
                Ok((v, next)) => r matches Ok(x) && x@ == v && final(self).pos == next,
                Err(e) => r matches Err(x) && x == e,
            },
    {
        let mut out: Vec<Locals> = Vec::new();
        let mut k: u32 = 0;
        let ghost bytes = self.stream@;
        let ghost start = self.pos as int;
        proof {
            assert(out@ =~= Seq::<Locals>::empty());
            lemma_after_empty(spec_locals(bytes, start, count as nat));
        }
        while k < count
            invariant
                k <= count,
                self.wf(),
                self.stream == old(self).stream,
                bytes == self.stream@,
                start == old(self).pos,
                start <= self.pos,
                spec_locals(bytes, start, count as nat) == spec_after(
                    out@,
                    spec_locals(bytes, self.pos as int, (count - k) as nat),
                ),
            decreases count - k,
        {
            let ghost acc = out@;
            let ghost here = self.pos as int;
            let x = self.parse_local()?;
            proof {
                lemma_after_step(acc, x, spec_locals(bytes, self.pos as int, (count - k - 1) as nat));
            }
            out.push(x);
            proof {
                assert(out@ =~= acc.push(x));
            }
            k = k + 1;
        }
        proof {
            lemma_after_done(out@, self.pos as int);
        }
        Ok(out)
    }

    /// Reads one instruction.
    pub fn parse_instr(&mut self) -> (r: Result<Inst, DecodeError>)
        requires
            old(self).wf(),
        ensures
            final(self).stream == old(self).stream,
            final(self).wf(),
            final(self).pos >= old(self).pos,
            match spec_instr(old(self).stream@, old(self).pos as int) {
                Ok((v, next)) => r matches Ok(x) && x.deep() == v && final(self).pos == next && next
                    > old(self).pos,
                Err(e) => r matches Err(x) && x == e,
            },
        decreases old(self).stream@.len() - old(self).pos, 0nat,
    {
        let at: usize = self.pos;
        let b = self.parse_byte()?;
        if b == 0x02 || b == 0x03 || b == 0x04 {
            let bt = self.parse_blocktype()?;
            let (first, t) = self.parse_body()?;
            if b == 0x04 && t == 0x05 {
                let (second, t2) = self.parse_body()?;
                if t2 != 0x0B {
                    return Err(Self::fail(DecodeErrorKind::Malformed, self.pos - 1));
                }
                let inst = Inst::IfElse(bt, Expr { instructions: first }, Expr { instructions: second });
                proof {
                    lemma_deep_nested(inst);
                }
                return Ok(inst);
            }
            if t != 0x0B {
                return Err(Self::fail(DecodeErrorKind::Malformed, self.pos - 1));
            }
            let inst = if b == 0x02 {
                Inst::Block(bt, Expr { instructions: first })
            } else if b == 0x03 {
                Inst::Loop(bt, Expr { instructions: first })
            } else {
                Inst::IfElse(bt, Expr { instructions: first }, Expr { instructions: Vec::new() })
            };
            proof {
                lemma_deep_nested(inst);
                if b == 0x04 {
                    assert(spec_deep(inst->IfElse_2.instructions@) =~= Seq::<InstView>::empty());
                }
            }
            Ok(inst)
        } else if b == 0x0C {
            Ok(Inst::Break(self.parse_labelidx()?))
        } else if b == 0x0D {
            Ok(Inst::BreakIf(self.parse_labelidx()?))
        } else if b == 0x0E {
            let count = self.parse_u32()?;
            let labels = self.parse_labelidxs(count)?;
            let ln = self.parse_labelidx()?;
            Ok(Inst::BreakTable(labels, ln))
        } else if b == 0x10 {
            Ok(Inst::Call(self.parse_funcidx()?))
        } else if b == 0x11 {
            let t = self.parse_typeidx()?;
            let table = self.parse_tableidx()?;
            Ok(Inst::CallIndirect(t, table))
        } else if 0x20 <= b && b <= 0x24 {
            let v = self.parse_u32()?;
            if b == 0x20 {
                Ok(Inst::LocalGet(LocalIdx(v)))
            } else if b == 0x21 {
                Ok(Inst::LocalSet(LocalIdx(v)))
            } else if b == 0x22 {
                Ok(Inst::LocalTee(LocalIdx(v)))
            } else if b == 0x23 {
                Ok(Inst::GlobalGet(GlobalIdx(v)))
            } else {
                Ok(Inst::GlobalSet(GlobalIdx(v)))
            }
        } else if let Some(op) = load_op(b) {
            Ok(Inst::Load(op, self.parse_memarg()?))
        } else if let Some(op) = store_op(b) {
            Ok(Inst::Store(op, self.parse_memarg()?))
        } else if b == 0x3F || b == 0x40 {
            self.parse_byte()?;
            if b == 0x3F {
                Ok(Inst::MemorySize)
            } else {
                Ok(Inst::MemoryGrow)
            }
        } else if b == 0x41 {
            Ok(Inst::I32Const(self.parse_i32()?))
        } else if b == 0x42 {
            Ok(Inst::I64Const(self.parse_i64()?))
        } else if b == 0x43 {
            let v = self.parse_fixed(4)?;
            Ok(Inst::F32Const((v % 0x1_0000_0000) as u32))
        } else if b == 0x44 {
            Ok(Inst::F64Const(self.parse_fixed(8)?))
        } else {
            match plain(b) {
                Some(i) => Ok(i),
                None => Err(Self::fail(DecodeErrorKind::UnknownOpcode(b), at)),
            }
        }
    }

    /// Reads instructions up to the byte 0x0B or 0x05 that ends them, and
    /// returns them with that byte.
    pub fn parse_body(&mut self) -> (r: Result<(Vec<Inst>, u8), DecodeError>)
        requires
            old(self).wf(),
        ensures
            final(self).stream == old(self).stream,
            final(self).wf(),
            final(self).pos >= old(self).pos,
            match spec_body(old(self).stream@, old(self).pos as int) {
                Ok((v, t, next)) => r matches Ok((x, tt)) && spec_deep(x@) == v && tt == t
                    && final(self).pos == next && next > old(self).pos,
                Err(e) => r matches Err(x) && x == e,
            },
        decreases old(self).stream@.len() - old(self).pos, 1nat,
    {
        let mut out: Vec<Inst> = Vec::new();
        let ghost bytes = self.stream@;
        let ghost start = self.pos as int;
        proof {
            assert(spec_deep(out@) =~= Seq::<InstView>::empty());
            lemma_body_after_empty(spec_body(bytes, start));
        }
        loop
            invariant
                self.wf(),
                self.stream == old(self).stream,
                bytes == self.stream@,
                start == old(self).pos,
                start <= self.pos,
                spec_body(bytes, start) == spec_body_after(
                    spec_deep(out@),
                    spec_body(bytes, self.pos as int),
                ),
            decreases self.stream@.len() - self.pos,
        {
            let b = self.peek_byte()?;
            if b == 0x0B || b == 0x05 {
                self.pos = self.pos + 1;
                proof {
                    assert(spec_deep(out@) + Seq::<InstView>::empty() =~= spec_deep(out@));
                }
                return Ok((out, b));
            }
            let ghost acc = spec_deep(out@);
            let inst = self.parse_instr()?;
            proof {
                lemma_body_after_step(acc, inst.deep(), spec_body(bytes, self.pos as int));
            }
            out.push(inst);
            proof {
                assert(spec_deep(out@) =~= acc.push(inst.deep()));
            }
        }
    }

    /// Reads an expression: instructions that the byte 0x0B ends.
    pub fn parse_expr(&mut self) -> (r: Result<Vec<Inst>, DecodeError>)
        requires
            old(self).wf(),
        ensures
            final(self).stream == old(self).stream,
            final(self).wf(),
            final(self).pos >= old(self).pos,
            match spec_expr(old(self).stream@, old(self).pos as int) {
                Ok((v, next)) => r matches Ok(x) && spec_deep(x@) == v && final(self).pos == next,
                Err(e) => r matches Err(x) && x == e,
            },
    {
        let (is, t) = self.parse_body()?;
        if t != 0x0B {
            return Err(Self::fail(DecodeErrorKind::Malformed, self.pos - 1));
        }
        Ok(is)
    }

    /// Reads a global.
    pub fn parse_global(&mut self) -> (r: Result<Global, DecodeError>)
        requires
            old(self).wf(),
        ensures
            final(self).stream == old(self).stream,
            final(self).wf(),
            final(self).pos >= old(self).pos,
            match spec_global(old(self).stream@, old(self).pos as int) {
                Ok((v, next)) => r matches Ok(x) && x.deep() == v && final(self).pos == next,
                Err(e) => r matches Err(x) && x == e,
            },
    {
        let typ = self.parse_globaltype()?;
        let init = self.parse_expr()?;
        Ok(Global { typ, init })
    }

    /// Reads the byte that says that an element segment holds function
    /// indices.
    fn parse_elemkind(&mut self) -> (r: Result<(), DecodeError>)
        requires
            old(self).wf(),
        ensures
            final(self).stream == old(self).stream,
            final(self).wf(),
            final(self).pos >= old(self).pos,
            match spec_elemkind(old(self).stream@, old(self).pos as int) {
                Ok((_, next)) => r is Ok && final(self).pos == next,
                Err(e) => r matches Err(x) && x == e,
            },
    {
        let at: usize = self.pos;
        let b = self.parse_byte()?;
        if b == 0 {
            Ok(())
        } else {
            Err(Self::fail(DecodeErrorKind::Malformed, at))
        }
    }

    /// Reads a count and as many function indices.
    fn parse_funcs(&mut self) -> (r: Result<Vec<FuncIdx>, DecodeError>)
        requires
            old(self).wf(),
        ensures
            final(self).stream == old(self).stream,
            final(self).wf(),
            final(self).pos >= old(self).pos,
            match spec_funcs(old(self).stream@, old(self).pos as int) {
                Ok((v, next)) => r matches Ok(x) && x@ == v && final(self).pos == next,
                Err(e) => r matches Err(x) && x == e,
            },
    {
        let n = self.parse_u32()?;
        self.parse_funcidxs(n)
    }

    /// Reads an element segment.
    pub fn parse_elem(&mut self) -> (r: Result<Elem, DecodeError>)
        requires
            old(self).wf(),
        ensures
            final(self).stream == old(self).stream,
            final(self).wf(),
            final(self).pos >= old(self).pos,
            match spec_elem(old(self).stream@, old(self).pos as int) {
                Ok((v, next)) => r matches Ok(x) && x.deep() == v && final(self).pos == next,
                Err(e) => r matches Err(x) && x == e,
            },
    {
        let at: usize = self.pos;
        let flag = self.parse_u32()?;
        if flag == 0 {
            let offset = self.parse_expr()?;
            let init = self.parse_funcs()?;
            Ok(
                Elem {
                    typ: Reftype::Funcref,
                    init,
                    mode: ElemMode::Active { table: TableIdx(0), offset },
                },
            )
        } else if flag == 1 || flag == 3 {
            self.parse_elemkind()?;
            let init = self.parse_funcs()?;
            Ok(
                Elem {
                    typ: Reftype::Funcref,
                    init,
                    mode: if flag == 1 {
                        ElemMode::Passive
                    } else {
                        ElemMode::Declarative
                    },
                },
            )
        } else if flag == 2 {
            let table = self.parse_tableidx()?;
            let offset = self.parse_expr()?;
            self.parse_elemkind()?;
            let init = self.parse_funcs()?;
            Ok(Elem { typ: Reftype::Funcref, init, mode: ElemMode::Active { table, offset } })
        } else {
            Err(Self::fail(DecodeErrorKind::Malformed, at))
        }
    }

    /// Reads a data segment.
    pub fn parse_data(&mut self) -> (r: Result<Data, DecodeError>)
        requires
            old(self).wf(),
        ensures
            final(self).stream == old(self).stream,
            final(self).wf(),
            final(self).pos >= old(self).pos,
            match spec_data(old(self).stream@, old(self).pos as int) {
                Ok((v, next)) => r matches Ok(x) && x.deep() == v && final(self).pos == next,
                Err(e) => r matches Err(x) && x == e,
            },
    {
        let at: usize = self.pos;
        let kind = self.parse_u32()?;
        if kind == 0 {
            let offset = self.parse_expr()?;
            let init = self.parse_blob()?;
            Ok(Data { init, mode: Datamode::Active { memory: MemIdx(0), offset } })
        } else if kind == 1 {
            let init = self.parse_blob()?;
            Ok(Data { init, mode: Datamode::Passive })
        } else if kind == 2 {
            let memory = self.parse_u32()?;
            let offset = self.parse_expr()?;
            let init = self.parse_blob()?;
            Ok(Data { init, mode: Datamode::Active { memory: MemIdx(memory), offset } })
        } else {
            Err(Self::fail(DecodeErrorKind::Malformed, at))
        }
    }

    /// Reads `count` globals.
    pub fn parse_globals(&mut self, count: u32) -> (r: Result<Vec<Global>, DecodeError>)
        requires
            old(self).wf(),
        ensures
            final(self).stream == old(self).stream,
            final(self).wf(),
            final(self).pos >= old(self).pos,
            match spec_globals(old(self).stream@, old(self).pos as int, count as nat) {
                Ok((v, next)) => r matches Ok(x) && Seq::new(x@.len(), |i: int| x@[i].deep()) == v && final(self).pos == next,
                Err(e) => r matches Err(x) && x == e,
            },
    {
        let mut out: Vec<Global> = Vec::new();
        let mut k: u32 = 0;
        let ghost bytes = self.stream@;
        let ghost start = self.pos as int;
        proof {
            assert(Seq::new(out@.len(), |i: int| out@[i].deep()) =~= Seq::<GlobalView>::empty());
            lemma_after_empty(spec_globals(bytes, start, count as nat));
        }
        while k < count
            invariant
                k <= count,
                self.wf(),
                self.stream == old(self).stream,
                bytes == self.stream@,
                start == old(self).pos,
                start <= self.pos,
                spec_globals(bytes, start, count as nat) == spec_after(
                    Seq::new(out@.len(), |i: int| out@[i].deep()),
                    spec_globals(bytes, self.pos as int, (count - k) as nat),
                ),
            decreases count - k,
        {
            let ghost acc = Seq::new(out@.len(), |i: int| out@[i].deep());
            let ghost here = self.pos as int;
            let x = self.parse_global()?;
            proof {
                lemma_after_step(acc, x.deep(), spec_globals(bytes, self.pos as int, (count - k - 1) as nat));
            }
            out.push(x);
            proof {
                assert(Seq::new(out@.len(), |i: int| out@[i].deep()) =~= acc.push(x.deep()));
            }
            k = k + 1;
        }
        proof {
            lemma_after_done(Seq::new(out@.len(), |i: int| out@[i].deep()), self.pos as int);
        }
        Ok(out)
    }

    /// Reads `count` element segments.
    pub fn parse_elems(&mut self, count: u32) -> (r: Result<Vec<Elem>, DecodeError>)
        requires
            old(self).wf(),
        ensures
            final(self).stream == old(self).stream,
            final(self).wf(),
            final(self).pos >= old(self).pos,
            match spec_elems(old(self).stream@, old(self).pos as int, count as nat) {
                Ok((v, next)) => r matches Ok(x) && Seq::new(x@.len(), |i: int| x@[i].deep()) == v && final(self).pos == next,
                Err(e) => r matches Err(x) && x == e,
            },
    {
        let mut out: Vec<Elem> = Vec::new();
        let mut k: u32 = 0;
        let ghost bytes = self.stream@;
        let ghost start = self.pos as int;
        proof {
            assert(Seq::new(out@.len(), |i: int| out@[i].deep()) =~= Seq::<ElemView>::empty());
            lemma_after_empty(spec_elems(bytes, start, count as nat));
        }
        while k < count
            invariant
                k <= count,
                self.wf(),
                self.stream == old(self).stream,
                bytes == self.stream@,
                start == old(self).pos,
                start <= self.pos,
                spec_elems(bytes, start, count as nat) == spec_after(
                    Seq::new(out@.len(), |i: int| out@[i].deep()),
                    spec_elems(bytes, self.pos as int, (count - k) as nat),
                ),
            decreases count - k,
        {
            let ghost acc = Seq::new(out@.len(), |i: int| out@[i].deep());
            let ghost here = self.pos as int;
            let x = self.parse_elem()?;
            proof {
                lemma_after_step(acc, x.deep(), spec_elems(bytes, self.pos as int, (count - k - 1) as nat));
            }
            out.push(x);
            proof {
                assert(Seq::new(out@.len(), |i: int| out@[i].deep()) =~= acc.push(x.deep()));
            }
            k = k + 1;
        }
        proof {
            lemma_after_done(Seq::new(out@.len(), |i: int| out@[i].deep()), self.pos as int);
        }
        Ok(out)
    }

    /// Reads `count` data segments.
    pub fn parse_datas(&mut self, count: u32) -> (r: Result<Vec<Data>, DecodeError>)
        requires
            old(self).wf(),
        ensures
            final(self).stream == old(self).stream,
            final(self).wf(),
            final(self).pos >= old(self).pos,
            match spec_datas(old(self).stream@, old(self).pos as int, count as nat) {
                Ok((v, next)) => r matches Ok(x) && Seq::new(x@.len(), |i: int| x@[i].deep()) == v && final(self).pos == next,
                Err(e) => r matches Err(x) && x == e,
            },
    {
        let mut out: Vec<Data> = Vec::new();
        let mut k: u32 = 0;
        let ghost bytes = self.stream@;
        let ghost start = self.pos as int;
        proof {
            assert(Seq::new(out@.len(), |i: int| out@[i].deep()) =~= Seq::<DataView>::empty());
            lemma_after_empty(spec_datas(bytes, start, count as nat));
        }
        while k < count
            invariant
                k <= count,
                self.wf(),
                self.stream == old(self).stream,
                bytes == self.stream@,
                start == old(self).pos,
                start <= self.pos,
                spec_datas(bytes, start, count as nat) == spec_after(
                    Seq::new(out@.len(), |i: int| out@[i].deep()),
                    spec_datas(bytes, self.pos as int, (count - k) as nat),
                ),
            decreases count - k,
        {
            let ghost acc = Seq::new(out@.len(), |i: int| out@[i].deep());
            let ghost here = self.pos as int;
            let x = self.parse_data()?;
            proof {
                lemma_after_step(acc, x.deep(), spec_datas(bytes, self.pos as int, (count - k - 1) as nat));
            }
            out.push(x);
            proof {
                assert(Seq::new(out@.len(), |i: int| out@[i].deep()) =~= acc.push(x.deep()));
            }
            k = k + 1;
        }
        proof {
            lemma_after_done(Seq::new(out@.len(), |i: int| out@[i].deep()), self.pos as int);
        }
        Ok(out)
    }

    /// Reads the body of one function of type `typ`.
    pub fn parse_func(&mut self, typ: TypeIdx) -> (r: Result<Func, DecodeError>)
        requires
            old(self).wf(),
        ensures
            final(self).stream == old(self).stream,
            final(self).wf(),
            final(self).pos >= old(self).pos,
            match spec_code(old(self).stream@, old(self).pos as int, typ) {
                Ok((v, next)) => r matches Ok(x) && x.deep() == v && final(self).pos == next,
                Err(e) => r matches Err(x) && x == e,
            },
    {
        let size = self.parse_u32()?;
        let at: usize = self.pos;
        let count = self.parse_u32()?;
        let locals = self.parse_locals(count)?;
        let body = self.parse_expr()?;
        if self.pos < at || self.pos - at != size as usize {
            return Err(Self::fail(DecodeErrorKind::SizeMismatch, at));
        }
        Ok(Func { typ, locals, body })
    }

    /// Reads `count` function bodies, which get the types that the function
    /// section gave.
    pub fn parse_code(&mut self, count: u32, func_types: &Vec<TypeIdx>) -> (r: Result<
        Vec<Func>,
        DecodeError,
    >)
        requires
            old(self).wf(),
        ensures
            final(self).stream == old(self).stream,
            final(self).wf(),
            final(self).pos >= old(self).pos,
            match spec_codes(old(self).stream@, old(self).pos as int, count as nat, func_types@, 0) {
                Ok((v, next)) => r matches Ok(x) && Seq::new(x@.len(), |i: int| x@[i].deep()) == v
                    && final(self).pos == next,
                Err(e) => r matches Err(x) && x == e,
            },
    {
        let mut out: Vec<Func> = Vec::new();
        let mut k: u32 = 0;
        let ghost bytes = self.stream@;
        let ghost start = self.pos as int;
        proof {
            assert(Seq::new(out@.len(), |i: int| out@[i].deep()) =~= Seq::<FuncView>::empty());
            lemma_after_empty(spec_codes(bytes, start, count as nat, func_types@, 0));
        }
        while k < count
            invariant
                k <= count,
                self.wf(),
                self.stream == old(self).stream,
                bytes == self.stream@,
                start == old(self).pos,
                start <= self.pos,
                spec_codes(bytes, start, count as nat, func_types@, 0) == spec_after(
                    Seq::new(out@.len(), |i: int| out@[i].deep()),
                    spec_codes(bytes, self.pos as int, (count - k) as nat, func_types@, k as nat),
                ),
            decreases count - k,
        {
            let ghost acc = Seq::new(out@.len(), |i: int| out@[i].deep());
            if k as usize >= func_types.len() {
                return Err(Self::fail(DecodeErrorKind::Malformed, self.pos));
            }
            let x = self.parse_func(func_types[k as usize])?;
            proof {
                lemma_after_step(
                    acc,
                    x.deep(),
                    spec_codes(bytes, self.pos as int, (count - k - 1) as nat, func_types@, (k + 1) as nat),
                );
            }
            out.push(x);
            proof {
                assert(Seq::new(out@.len(), |i: int| out@[i].deep()) =~= acc.push(x.deep()));
            }
            k = k + 1;
        }
        proof {
            lemma_after_done(Seq::new(out@.len(), |i: int| out@[i].deep()), self.pos as int);
        }
        Ok(out)
    }
}

pub proof fn lemma_body_after_empty(r: Result<(Seq<InstView>, u8, int), DecodeError>)
    ensures
        spec_body_after(Seq::empty(), r) == r,
{
    if let Ok((s, t, q)) = r {
        assert(Seq::<InstView>::empty() + s =~= s);
    }
}

pub proof fn lemma_body_after_step(
    acc: Seq<InstView>,
    x: InstView,
    r: Result<(Seq<InstView>, u8, int), DecodeError>,
)
    ensures
        spec_body_after(acc, spec_body_after(seq![x], r)) == spec_body_after(acc.push(x), r),
{
    if let Ok((s, t, q)) = r {
        assert(acc + (seq![x] + s) =~= acc.push(x) + s);
    }
}

/// The section that a byte names.
pub fn section_id(b: u8) -> (r: Option<SectionId>)
    ensures
        r == spec_section_id(b),
{
    match SectionId::try_from(b) {
        Ok(id) => {
            assert(id.spec_id() == b);
            Some(id)
        },
        Err(_) => None,
    }
}

impl<'a> Parser<'a> {
    /// Reads the magic number.
    pub fn parse_magic(&mut self) -> (r: Result<(), DecodeError>)
        requires
            old(self).wf(),
        ensures
            final(self).stream == old(self).stream,
            final(self).wf(),
            final(self).pos >= old(self).pos,
            match spec_magic(old(self).stream@, old(self).pos as int) {
                Ok((_, next)) => r is Ok && final(self).pos == next,
                Err(e) => r matches Err(x) && x == e,
            },
    {
        let at: usize = self.pos;
        let len: usize = self.stream.len();
        if len - at < 4 {
            return Err(Self::fail(DecodeErrorKind::UnexpectedEof, len));
        }
        if self.stream[at] == 0x00 && self.stream[at + 1] == 0x61 && self.stream[at + 2] == 0x73
            && self.stream[at + 3] == 0x6D {
            self.pos = at + 4;
            Ok(())
        } else {
            Err(Self::fail(DecodeErrorKind::InvalidMagic, at))
        }
    }

    /// Reads the version.
    pub fn parse_version(&mut self) -> (r: Result<(), DecodeError>)
        requires
            old(self).wf(),
        ensures
            final(self).stream == old(self).stream,
            final(self).wf(),
            final(self).pos >= old(self).pos,
            match spec_version(old(self).stream@, old(self).pos as int) {
                Ok((_, next)) => r is Ok && final(self).pos == next,
                Err(e) => r matches Err(x) && x == e,
            },
    {
        let at: usize = self.pos;
        let len: usize = self.stream.len();
        if len - at < 4 {
            return Err(Self::fail(DecodeErrorKind::UnexpectedEof, len));
        }
        if self.stream[at] == 0x01 && self.stream[at + 1] == 0x00 && self.stream[at + 2] == 0x00
            && self.stream[at + 3] == 0x00 {
            self.pos = at + 4;
            Ok(())
        } else {
            Err(Self::fail(DecodeErrorKind::InvalidVersion, at))
        }
    }

    /// Reads the header of a section: the section and its size in bytes.
    pub fn parse_section_header(&mut self) -> (r: Result<(SectionId, u32), DecodeError>)
        requires
            old(self).wf(),
        ensures
            final(self).stream == old(self).stream,
            final(self).wf(),
            final(self).pos >= old(self).pos,
            match spec_byte(old(self).stream@, old(self).pos as int) {
                Err(e) => r matches Err(x) && x == e,
                Ok((b, p)) => match spec_section_id(b) {
                    None => r matches Err(x) && x == spec_fail(
                        DecodeErrorKind::InvalidSectionId(b),
                        old(self).pos as int,
                    ),
                    Some(id) => match spec_u32(old(self).stream@, p) {
                        Err(e) => r matches Err(x) && x == e,
                        Ok((size, q)) => r matches Ok(x) && x == (id, size) && final(self).pos == q
                            && q > old(self).pos,
                    },
                },
            },
    {
        let at: usize = self.pos;
        let typ = self.parse_byte()?;
        let id = match section_id(typ) {
            Some(id) => id,
            None => {
                return Err(Self::fail(DecodeErrorKind::InvalidSectionId(typ), at));
            },
        };
        let size = self.parse_u32()?;
        Ok((id, size))
    }

    /// Reads the body of a section into the module.
    pub fn parse_section(
        &mut self,
        id: SectionId,
        size: u32,
        module: &mut Module,
        ftypes: &mut Vec<TypeIdx>,
    ) -> (r: Result<(), DecodeError>)
        requires
            old(self).wf(),
        ensures
            final(self).stream == old(self).stream,
            final(self).wf(),
            final(self).pos >= old(self).pos,
            match spec_section(
                id,
                old(self).stream@,
                old(self).pos as int,
                size,
                old(module).deep(),
                old(ftypes)@,
            ) {
                Ok((m2, ft2, next)) => r is Ok && final(module).deep() == m2 && final(ftypes)@ == ft2
                    && final(self).pos == next,
                Err(e) => r matches Err(x) && x == e,
            },
    {
        let ghost m = module.deep();
        match id {
            SectionId::Custom => {
                let len: usize = self.stream.len();
                if size as usize > len - self.pos {
                    return Err(Self::fail(DecodeErrorKind::UnexpectedEof, len));
                }
                self.pos = self.pos + size as usize;
            },
            SectionId::Start => {
                let idx = self.parse_funcidx()?;
                module.start = Some(idx);
            },
            SectionId::DataCount => {
                self.parse_u32()?;
            },
            SectionId::Type => {
                let n = self.parse_u32()?;
                let mut v = self.parse_functypes(n)?;
                let ghost add = Seq::new(v@.len(), |i: int| v@[i]@);
                module.types.append(&mut v);
                assert(module.deep().types =~= m.types + add);
            },
            SectionId::Import => {
                let n = self.parse_u32()?;
                let mut v = self.parse_imports(n)?;
                let ghost add = Seq::new(v@.len(), |i: int| v@[i].deep());
                module.imports.append(&mut v);
                assert(module.deep().imports =~= m.imports + add);
            },
            SectionId::Function => {
                let n = self.parse_u32()?;
                let mut v = self.parse_typeidxs(n)?;
                ftypes.append(&mut v);
            },
            SectionId::Table => {
                let n = self.parse_u32()?;
                let mut v = self.parse_tabletypes(n)?;
                module.tables.append(&mut v);
            },
            SectionId::Memory => {
                let n = self.parse_u32()?;
                let mut v = self.parse_memtypes(n)?;
                module.mems.append(&mut v);
            },
            SectionId::Global => {
                let n = self.parse_u32()?;
                let mut v = self.parse_globals(n)?;
                let ghost add = Seq::new(v@.len(), |i: int| v@[i].deep());
                module.globals.append(&mut v);
                assert(module.deep().globals =~= m.globals + add);
            },
            SectionId::Export => {
                let n = self.parse_u32()?;
                let mut v = self.parse_exports(n)?;
                let ghost add = Seq::new(v@.len(), |i: int| v@[i].deep());
                module.exports.append(&mut v);
                assert(module.deep().exports =~= m.exports + add);
            },
            SectionId::Element => {
                let n = self.parse_u32()?;
                let mut v = self.parse_elems(n)?;
                let ghost add = Seq::new(v@.len(), |i: int| v@[i].deep());
                module.elems.append(&mut v);
                assert(module.deep().elems =~= m.elems + add);
            },
            SectionId::Code => {
                let n = self.parse_u32()?;
                let mut v = self.parse_code(n, ftypes)?;
                let ghost add = Seq::new(v@.len(), |i: int| v@[i].deep());
                module.funcs.append(&mut v);
                assert(module.deep().funcs =~= m.funcs + add);
            },
            SectionId::Data => {
                let n = self.parse_u32()?;
                let mut v = self.parse_datas(n)?;
                let ghost add = Seq::new(v@.len(), |i: int| v@[i].deep());
                module.datas.append(&mut v);
                assert(module.deep().datas =~= m.datas + add);
            },
        }
        Ok(())
    }

    /// Reads one section into the module.
    pub fn parse_one_section(&mut self, module: &mut Module, ftypes: &mut Vec<TypeIdx>) -> (r:
        Result<(), DecodeError>)
        requires
            old(self).wf(),
        ensures
            final(self).stream == old(self).stream,
            final(self).wf(),
            match spec_one_section(
                old(self).stream@,
                old(self).pos as int,
                old(module).deep(),
                old(ftypes)@,
            ) {
                Ok((m2, ft2, next)) => r is Ok && final(module).deep() == m2 && final(ftypes)@ == ft2
                    && final(self).pos == next && next > old(self).pos,
                Err(e) => r matches Err(x) && x == e,
            },
    {
        let (id, size) = self.parse_section_header()?;
        let body: usize = self.pos;
        self.parse_section(id, size, module, ftypes)?;
        if self.pos - body != size as usize {
            return Err(Self::fail(DecodeErrorKind::SizeMismatch, body));
        }
        Ok(())
    }

    /// Decodes a module from the whole of the bytes.
    pub fn parse_module(&mut self) -> (r: Result<Module, DecodeError>)
        ensures
            final(self).stream == old(self).stream,
            match spec_module(old(self).stream@) {
                Ok(m) => r matches Ok(x) && x.deep() == m,
                Err(e) => r matches Err(x) && x == e,
            },
    {
        let mut module = Module::new();
        let mut ftypes: Vec<TypeIdx> = Vec::new();
        self.pos = 0;
        self.parse_magic()?;
        self.parse_version()?;
        let ghost bytes = self.stream@;
        proof {
            assert(module.deep().types =~= Seq::empty());
            assert(module.deep().funcs =~= Seq::empty());
            assert(module.deep().globals =~= Seq::empty());
            assert(module.deep().elems =~= Seq::empty());
            assert(module.deep().datas =~= Seq::empty());
            assert(module.deep().imports =~= Seq::empty());
            assert(module.deep().exports =~= Seq::empty());
            assert(module.deep().tables =~= Seq::empty());
            assert(module.deep().mems =~= Seq::empty());
            assert(module.deep() == spec_empty_module());
        }
        while self.pos < self.stream.len()
            invariant
                self.wf(),
                self.stream == old(self).stream,
                bytes == self.stream@,
                spec_module(bytes) == spec_sections(bytes, self.pos as int, module.deep(), ftypes@),
            decreases self.stream@.len() - self.pos,
        {
            self.parse_one_section(&mut module, &mut ftypes)?;
        }
        Ok(module)
    }
}

/// Decodes a module from bytes.
pub fn parse_bytes(bytes: &[u8]) -> (r: Result<Module, DecodeError>)
    ensures
        match spec_module(bytes@) {
            Ok(m) => r matches Ok(x) && x.deep() == m,
            Err(e) => r matches Err(x) && x == e,
        },
{
    let mut parser = Parser::new(bytes);
    parser.parse_module()
}

} // verus!
