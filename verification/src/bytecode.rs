//! Flat instruction sequences: the instructions that the bytes of an
//! expression encode.
use vstd::prelude::*;
pub use crate::repr::{BlockType, Inst, LabelIdx, LocalIdx};
use crate::parser::{
    spec_byte, spec_fail, spec_instr, spec_signed, spec_u32, DecodeError, DecodeErrorKind, Parser,
};
use crate::repr::{spec_deep, ExprBytes, FuncIdx, InstView};

verus! {

/// A decoder of instructions over the bytes of an expression.
#[derive(Debug)]
pub struct InstructionParser<'a> {
    pub bytes: Parser<'a>,
}

/// A result with the instructions `acc` in front.
pub open spec fn spec_then(acc: Seq<InstView>, r: Result<Seq<InstView>, DecodeError>) -> Result<
    Seq<InstView>,
    DecodeError,
> {
    match r {
        Ok(s) => Ok(acc + s),
        Err(e) => Err(e),
    }
}

/// The instructions that the bytes from `pos` on encode, up to the byte
/// 0x0B or the end of the bytes.
pub open spec fn spec_instructions(bytes: Seq<u8>, pos: int) -> Result<Seq<InstView>, DecodeError>
    decreases bytes.len() - pos,
{
    if pos < 0 || pos >= bytes.len() || bytes[pos] == 0x0B {
        Ok(Seq::empty())
    } else {
        match spec_instr(bytes, pos) {
            Err(e) => Err(e),
            Ok((i, q)) => if q <= pos || q > bytes.len() {
                Err(spec_fail(DecodeErrorKind::Malformed, pos))
            } else {
                spec_then(seq![i], spec_instructions(bytes, q))
            },
        }
    }
}

impl<'a> InstructionParser<'a> {
    /// A decoder at the first of the bytes.
    pub fn new(bytes: &'a [u8]) -> (p: Self)
        ensures
            p.bytes.stream@ == bytes@,
            p.bytes.pos == 0,
    {
        Self { bytes: Parser::new(bytes) }
    }

    /// Reads one byte.
    pub fn parse_byte(&mut self) -> (r: Result<u8, DecodeError>)
        requires
            old(self).bytes.wf(),
        ensures
            final(self).bytes.stream == old(self).bytes.stream,
            final(self).bytes.wf(),
            match spec_byte(old(self).bytes.stream@, old(self).bytes.pos as int) {
                Ok((b, next)) => r == Ok::<u8, DecodeError>(b) && final(self).bytes.pos == next,
                Err(e) => r == Err::<u8, DecodeError>(e) && final(self).bytes.pos == old(self).bytes.pos,
            },
    {
        self.bytes.parse_byte()
    }

    /// Reads the opcode of the next instruction, if the bytes have not
    /// ended.
    pub fn parse_opcode(&mut self) -> (r: Option<u8>)
        requires
            old(self).bytes.wf(),
        ensures
            final(self).bytes.stream == old(self).bytes.stream,
            final(self).bytes.wf(),
            match spec_byte(old(self).bytes.stream@, old(self).bytes.pos as int) {
                Ok((b, next)) => r == Some(b) && final(self).bytes.pos == next,
                Err(_) => r is None && final(self).bytes.pos == old(self).bytes.pos,
            },
    {
        match self.bytes.parse_byte() {
            Ok(b) => Some(b),
            Err(_) => None,
        }
    }

    /// Reads an unsigned 32-bit number.
    pub fn parse_u32(&mut self) -> (r: Result<u32, DecodeError>)
        requires
            old(self).bytes.wf(),
        ensures
            final(self).bytes.stream == old(self).bytes.stream,
            final(self).bytes.wf(),
            match spec_u32(old(self).bytes.stream@, old(self).bytes.pos as int) {
                Ok((v, next)) => r == Ok::<u32, DecodeError>(v) && final(self).bytes.pos == next,
                Err(e) => r == Err::<u32, DecodeError>(e),
            },
    {
        self.bytes.parse_u32()
    }

    /// Reads a signed 32-bit number.
    pub fn parse_i32(&mut self) -> (r: Result<i32, DecodeError>)
        requires
            old(self).bytes.wf(),
        ensures
            final(self).bytes.stream == old(self).bytes.stream,
            final(self).bytes.wf(),
            match spec_signed(old(self).bytes.stream@, old(self).bytes.pos as int, 5, 32) {
                Ok((v, next)) => r == Ok::<i32, DecodeError>(v as i32) && final(self).bytes.pos
                    == next,
                Err(e) => r == Err::<i32, DecodeError>(e),
            },
    {
        self.bytes.parse_i32()
    }

    /// Reads a function index.
    pub fn parse_funcidx(&mut self) -> (r: Result<FuncIdx, DecodeError>)
        requires
            old(self).bytes.wf(),
        ensures
            final(self).bytes.stream == old(self).bytes.stream,
            final(self).bytes.wf(),
            match spec_u32(old(self).bytes.stream@, old(self).bytes.pos as int) {
                Ok((v, next)) => r == Ok::<FuncIdx, DecodeError>(FuncIdx(v)) && final(self).bytes.pos == next,
                Err(e) => r == Err::<FuncIdx, DecodeError>(e),
            },
    {
        let idx = self.parse_u32()?;
        Ok(FuncIdx(idx))
    }

    /// Reads a local index.
    pub fn parse_localidx(&mut self) -> (r: Result<LocalIdx, DecodeError>)
        requires
            old(self).bytes.wf(),
        ensures
            final(self).bytes.stream == old(self).bytes.stream,
            final(self).bytes.wf(),
            match spec_u32(old(self).bytes.stream@, old(self).bytes.pos as int) {
                Ok((v, next)) => r == Ok::<LocalIdx, DecodeError>(LocalIdx(v)) && final(self).bytes.pos == next,
                Err(e) => r == Err::<LocalIdx, DecodeError>(e),
            },
    {
        let idx = self.parse_u32()?;
        Ok(LocalIdx(idx))
    }
}

/// Decodes the instructions of an expression: up to the byte 0x0B that
/// ends it, or to the end of the bytes.
pub fn parse_instructions(bytes: &ExprBytes) -> (r: Result<Vec<Inst>, DecodeError>)
    ensures
        match spec_instructions(bytes.0@, 0) {
            Ok(v) => r matches Ok(x) && spec_deep(x@) == v,
            Err(e) => r matches Err(x) && x == e,
        },
{
    let mut parser = InstructionParser::new(bytes.0.as_slice());
    let mut is: Vec<Inst> = Vec::new();
    let ghost input = bytes.0@;
    proof {
        assert(spec_deep(is@) =~= Seq::<InstView>::empty());
        if let Ok(s) = spec_instructions(input, 0) {
            assert(Seq::<InstView>::empty() + s =~= s);
        }
    }
    loop
        invariant
            parser.bytes.wf(),
            parser.bytes.stream@ == input,
            input == bytes.0@,
            spec_instructions(input, 0) == spec_then(
                spec_deep(is@),
                spec_instructions(input, parser.bytes.pos as int),
            ),
        decreases input.len() - parser.bytes.pos,
    {
        let ghost acc = spec_deep(is@);
        match parser.bytes.peek_byte() {
            Err(_) => {
                proof {
                    assert(acc + Seq::<InstView>::empty() =~= acc);
                }
                return Ok(is);
            },
            Ok(op) => {
                if op == 0x0B {
                    proof {
                        assert(acc + Seq::<InstView>::empty() =~= acc);
                    }
                    return Ok(is);
                }
            },
        }
        let inst = parser.bytes.parse_instr()?;
        proof {
            if let Ok(rest) = spec_instructions(input, parser.bytes.pos as int) {
                assert(acc + (seq![inst.deep()] + rest) =~= acc.push(inst.deep()) + rest);
            }
        }
        is.push(inst);
        proof {
            assert(spec_deep(is@) =~= acc.push(inst.deep()));
        }
    }
}

} // verus!
