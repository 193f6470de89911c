//! The lowering of the tokens of the text format to a module.
use vstd::prelude::*;
use crate::numeric::{i32_of, i64_of, spec_wrap32, spec_wrap64};
use crate::repr::{
    lemma_deep_nested, spec_deep, BlockType, Data, DataView, Datamode, DatamodeView, Elem, ElemMode,
    ElemModeView, ElemView, Export, ExportDesc, ExportView, Expr, FloatBinop, FloatConv, FloatOp,
    FloatRelop, FloatUnop, Func, FuncIdx, FuncType, FuncView, Global, GlobalIdx, GlobalType,
    GlobalView, Import, ImportDesc, ImportView, Inst, InstView, IntBinop, IntConv, IntRelop,
    IntUnop, LabelIdx, Limits, LoadOp, LocalIdx, Locals, MemArg, MemIdx, MemType, Module,
    ModuleView, Reftype, ResultType, StoreOp, TableIdx, TableType, TypeIdx, ValType,
};
use crate::parser::string_from_utf8;
use crate::text::token::{spec_deep_tokens, TextToken, Token, TokenView};
use vstd::string::StringSliceAdditionalSpecFns;
use vstd::utf8::{decode_utf8, encode_utf8, encode_utf8_decode_utf8, valid_utf8};

verus! {

/// Where in a module an error was found.
#[derive(Debug, Copy, Clone, PartialEq, Eq, Structural)]
pub enum ParseContext {
    FuncType,
    Type,
    Params,
    Result,
    Func,
}

/// Why tokens are no module.
#[derive(Debug, PartialEq, Eq)]
pub enum ParseError {
    FailedExpectedToken,
    /// The tokens end where more are needed.
    UnexpectedEot,
    /// A field of a module begins with a word that names no field: the
    /// word.
    InvalidModulefield(String),
    ExpectedLparen,
    ExpectedRparen,
    /// An error, and the part of the module in which it was found.
    Context(ParseContext, Box<ParseError>),
    /// A name is not UTF-8.
    InvalidUtf8,
    /// An import describes something that cannot be imported.
    UnexpectedImport,
    /// A word names no instruction.
    UnknownInstruction,
    /// A number does not fit where it stands.
    NumberOutOfRange,
    /// A floating-point literal that is not an infinity or a not-a-number:
    /// its value can only be found by arithmetic in floating point.
    UnsupportedFloat,
}

/// An error of the parser as a value: the word of an unknown field is
/// seen as its characters.
pub enum ParseErrorView {
    FailedExpectedToken,
    UnexpectedEot,
    InvalidModulefield(Seq<char>),
    ExpectedLparen,
    ExpectedRparen,
    Context(ParseContext, Box<ParseErrorView>),
    InvalidUtf8,
    UnexpectedImport,
    UnknownInstruction,
    NumberOutOfRange,
    UnsupportedFloat,
}

impl ParseError {
    pub open spec fn deep(self) -> ParseErrorView
        decreases self,
    {
        match self {
            ParseError::FailedExpectedToken => ParseErrorView::FailedExpectedToken,
            ParseError::UnexpectedEot => ParseErrorView::UnexpectedEot,
            ParseError::InvalidModulefield(word) => ParseErrorView::InvalidModulefield(word@),
            ParseError::ExpectedLparen => ParseErrorView::ExpectedLparen,
            ParseError::ExpectedRparen => ParseErrorView::ExpectedRparen,
            ParseError::Context(ctx, e) => ParseErrorView::Context(ctx, Box::new(e.deep())),
            ParseError::InvalidUtf8 => ParseErrorView::InvalidUtf8,
            ParseError::UnexpectedImport => ParseErrorView::UnexpectedImport,
            ParseError::UnknownInstruction => ParseErrorView::UnknownInstruction,
            ParseError::NumberOutOfRange => ParseErrorView::NumberOutOfRange,
            ParseError::UnsupportedFloat => ParseErrorView::UnsupportedFloat,
        }
    }

    /// A copy of the error.
    pub fn duplicate(&self) -> (r: ParseError)
        ensures
            r.deep() == self.deep(),
        decreases self,
    {
        match self {
            ParseError::FailedExpectedToken => ParseError::FailedExpectedToken,
            ParseError::UnexpectedEot => ParseError::UnexpectedEot,
            ParseError::InvalidModulefield(word) => ParseError::InvalidModulefield(word.clone()),
            ParseError::ExpectedLparen => ParseError::ExpectedLparen,
            ParseError::ExpectedRparen => ParseError::ExpectedRparen,
            ParseError::Context(ctx, e) => ParseError::Context(*ctx, Box::new(e.duplicate())),
            ParseError::InvalidUtf8 => ParseError::InvalidUtf8,
            ParseError::UnexpectedImport => ParseError::UnexpectedImport,
            ParseError::UnknownInstruction => ParseError::UnknownInstruction,
            ParseError::NumberOutOfRange => ParseError::NumberOutOfRange,
            ParseError::UnsupportedFloat => ParseError::UnsupportedFloat,
        }
    }

    /// The error, found in the part `ctx` of the module.
    pub fn context(self, ctx: ParseContext) -> (r: Self)
        ensures
            r == ParseError::Context(ctx, Box::new(self)),
    {
        ParseError::Context(ctx, Box::new(self))
    }
}

pub type ParseResult<T> = Result<T, ParseError>;

/// Names that are declared in a module. Indices are written as numbers;
/// names are read and not recorded.
#[derive(Debug)]
pub struct IdentifierContext {}

impl IdentifierContext {
    pub fn register_func(&mut self, name: &str) -> (r: ParseResult<()>)
        ensures
            r is Ok,
    {
        Ok(())
    }
}

/// Whether two strings have the same characters: they have if their bytes
/// are the same.
pub fn str_eq(a: &str, b: &str) -> (r: bool)
    ensures
        r == (a@ == b@),
{
    let x = a.as_bytes();
    let y = b.as_bytes();
    proof {
        encode_utf8_decode_utf8(a@);
        encode_utf8_decode_utf8(b@);
    }
    if x.len() != y.len() {
        return false;
    }
    let mut i: usize = 0;
    while i < x.len()
        invariant
            i <= x@.len(),
            x@.len() == y@.len(),
            x@ == encode_utf8(a@),
            y@ == encode_utf8(b@),
            forall|j: int| 0 <= j < i ==> x@[j] == y@[j],
        decreases x@.len() - i,
    {
        if x[i] != y[i] {
            return false;
        }
        i = i + 1;
    }
    assert(x@ =~= y@);
    true
}

/// The instruction without immediates that a name stands for.
pub open spec fn spec_plain_name(name: Seq<char>) -> Option<Inst> {
    if name == "unreachable"@ {
        Some(Inst::Unreachable)
    } else if name == "nop"@ {
        Some(Inst::Nop)
    } else if name == "return"@ {
        Some(Inst::Return)
    } else if name == "drop"@ {
        Some(Inst::Drop)
    } else if name == "select"@ {
        Some(Inst::Select)
    } else if name == "memory.size"@ {
        Some(Inst::MemorySize)
    } else if name == "memory.grow"@ {
        Some(Inst::MemoryGrow)
    } else if name == "i32.eqz"@ {
        Some(Inst::I32Eqz)
    } else if name == "i32.eq"@ {
        Some(Inst::I32Compare(IntRelop::Eq))
    } else if name == "i32.ne"@ {
        Some(Inst::I32Compare(IntRelop::Ne))
    } else if name == "i32.lt_s"@ {
        Some(Inst::I32Compare(IntRelop::LtS))
    } else if name == "i32.lt_u"@ {
        Some(Inst::I32Compare(IntRelop::LtU))
    } else if name == "i32.gt_s"@ {
        Some(Inst::I32Compare(IntRelop::GtS))
    } else if name == "i32.gt_u"@ {
        Some(Inst::I32Compare(IntRelop::GtU))
    } else if name == "i32.le_s"@ {
        Some(Inst::I32Compare(IntRelop::LeS))
    } else if name == "i32.le_u"@ {
        Some(Inst::I32Compare(IntRelop::LeU))
    } else if name == "i32.ge_s"@ {
        Some(Inst::I32Compare(IntRelop::GeS))
    } else if name == "i32.ge_u"@ {
        Some(Inst::I32Compare(IntRelop::GeU))
    } else if name == "i32.clz"@ {
        Some(Inst::I32Unary(IntUnop::Clz))
    } else if name == "i32.ctz"@ {
        Some(Inst::I32Unary(IntUnop::Ctz))
    } else if name == "i32.popcnt"@ {
        Some(Inst::I32Unary(IntUnop::Popcnt))
    } else if name == "i32.add"@ {
        Some(Inst::I32Binary(IntBinop::Add))
    } else if name == "i32.sub"@ {
        Some(Inst::I32Binary(IntBinop::Sub))
    } else if name == "i32.mul"@ {
        Some(Inst::I32Binary(IntBinop::Mul))
    } else if name == "i32.div_s"@ {
        Some(Inst::I32Binary(IntBinop::DivS))
    } else if name == "i32.div_u"@ {
        Some(Inst::I32Binary(IntBinop::DivU))
    } else if name == "i32.rem_s"@ {
        Some(Inst::I32Binary(IntBinop::RemS))
    } else if name == "i32.rem_u"@ {
        Some(Inst::I32Binary(IntBinop::RemU))
    } else if name == "i32.and"@ {
        Some(Inst::I32Binary(IntBinop::And))
    } else if name == "i32.or"@ {
        Some(Inst::I32Binary(IntBinop::Or))
    } else if name == "i32.xor"@ {
        Some(Inst::I32Binary(IntBinop::Xor))
    } else if name == "i32.shl"@ {
        Some(Inst::I32Binary(IntBinop::Shl))
    } else if name == "i32.shr_s"@ {
        Some(Inst::I32Binary(IntBinop::ShrS))
    } else if name == "i32.shr_u"@ {
        Some(Inst::I32Binary(IntBinop::ShrU))
    } else if name == "i32.rotl"@ {
        Some(Inst::I32Binary(IntBinop::Rotl))
    } else if name == "i32.rotr"@ {
        Some(Inst::I32Binary(IntBinop::Rotr))
    } else if name == "i64.eqz"@ {
        Some(Inst::I64Eqz)
    } else if name == "i64.eq"@ {
        Some(Inst::I64Compare(IntRelop::Eq))
    } else if name == "i64.ne"@ {
        Some(Inst::I64Compare(IntRelop::Ne))
    } else if name == "i64.lt_s"@ {
        Some(Inst::I64Compare(IntRelop::LtS))
    } else if name == "i64.lt_u"@ {
        Some(Inst::I64Compare(IntRelop::LtU))
    } else if name == "i64.gt_s"@ {
        Some(Inst::I64Compare(IntRelop::GtS))
    } else if name == "i64.gt_u"@ {
        Some(Inst::I64Compare(IntRelop::GtU))
    } else if name == "i64.le_s"@ {
        Some(Inst::I64Compare(IntRelop::LeS))
    } else if name == "i64.le_u"@ {
        Some(Inst::I64Compare(IntRelop::LeU))
    } else if name == "i64.ge_s"@ {
        Some(Inst::I64Compare(IntRelop::GeS))
    } else if name == "i64.ge_u"@ {
        Some(Inst::I64Compare(IntRelop::GeU))
    } else if name == "i64.clz"@ {
        Some(Inst::I64Unary(IntUnop::Clz))
    } else if name == "i64.ctz"@ {
        Some(Inst::I64Unary(IntUnop::Ctz))
    } else if name == "i64.popcnt"@ {
        Some(Inst::I64Unary(IntUnop::Popcnt))
    } else if name == "i64.add"@ {
        Some(Inst::I64Binary(IntBinop::Add))
    } else if name == "i64.sub"@ {
        Some(Inst::I64Binary(IntBinop::Sub))
    } else if name == "i64.mul"@ {
        Some(Inst::I64Binary(IntBinop::Mul))
    } else if name == "i64.div_s"@ {
        Some(Inst::I64Binary(IntBinop::DivS))
    } else if name == "i64.div_u"@ {
        Some(Inst::I64Binary(IntBinop::DivU))
    } else if name == "i64.rem_s"@ {
        Some(Inst::I64Binary(IntBinop::RemS))
    } else if name == "i64.rem_u"@ {
        Some(Inst::I64Binary(IntBinop::RemU))
    } else if name == "i64.and"@ {
        Some(Inst::I64Binary(IntBinop::And))
    } else if name == "i64.or"@ {
        Some(Inst::I64Binary(IntBinop::Or))
    } else if name == "i64.xor"@ {
        Some(Inst::I64Binary(IntBinop::Xor))
    } else if name == "i64.shl"@ {
        Some(Inst::I64Binary(IntBinop::Shl))
    } else if name == "i64.shr_s"@ {
        Some(Inst::I64Binary(IntBinop::ShrS))
    } else if name == "i64.shr_u"@ {
        Some(Inst::I64Binary(IntBinop::ShrU))
    } else if name == "i64.rotl"@ {
        Some(Inst::I64Binary(IntBinop::Rotl))
    } else if name == "i64.rotr"@ {
        Some(Inst::I64Binary(IntBinop::Rotr))
    } else if name == "f32.eq"@ {
        Some(Inst::Float(FloatOp::Compare32(FloatRelop::Eq)))
    } else if name == "f32.ne"@ {
        Some(Inst::Float(FloatOp::Compare32(FloatRelop::Ne)))
    } else if name == "f32.lt"@ {
        Some(Inst::Float(FloatOp::Compare32(FloatRelop::Lt)))
    } else if name == "f32.gt"@ {
        Some(Inst::Float(FloatOp::Compare32(FloatRelop::Gt)))
    } else if name == "f32.le"@ {
        Some(Inst::Float(FloatOp::Compare32(FloatRelop::Le)))
    } else if name == "f32.ge"@ {
        Some(Inst::Float(FloatOp::Compare32(FloatRelop::Ge)))
    } else if name == "f32.abs"@ {
        Some(Inst::Float(FloatOp::Unary32(FloatUnop::Abs)))
    } else if name == "f32.neg"@ {
        Some(Inst::Float(FloatOp::Unary32(FloatUnop::Neg)))
    } else if name == "f32.ceil"@ {
        Some(Inst::Float(FloatOp::Unary32(FloatUnop::Ceil)))
    } else if name == "f32.floor"@ {
        Some(Inst::Float(FloatOp::Unary32(FloatUnop::Floor)))
    } else if name == "f32.trunc"@ {
        Some(Inst::Float(FloatOp::Unary32(FloatUnop::Trunc)))
    } else if name == "f32.nearest"@ {
        Some(Inst::Float(FloatOp::Unary32(FloatUnop::Nearest)))
    } else if name == "f32.sqrt"@ {
        Some(Inst::Float(FloatOp::Unary32(FloatUnop::Sqrt)))
    } else if name == "f32.add"@ {
        Some(Inst::Float(FloatOp::Binary32(FloatBinop::Add)))
    } else if name == "f32.sub"@ {
        Some(Inst::Float(FloatOp::Binary32(FloatBinop::Sub)))
    } else if name == "f32.mul"@ {
        Some(Inst::Float(FloatOp::Binary32(FloatBinop::Mul)))
    } else if name == "f32.div"@ {
        Some(Inst::Float(FloatOp::Binary32(FloatBinop::Div)))
    } else if name == "f32.min"@ {
        Some(Inst::Float(FloatOp::Binary32(FloatBinop::Min)))
    } else if name == "f32.max"@ {
        Some(Inst::Float(FloatOp::Binary32(FloatBinop::Max)))
    } else if name == "f32.copysign"@ {
        Some(Inst::Float(FloatOp::Binary32(FloatBinop::Copysign)))
    } else if name == "f64.eq"@ {
        Some(Inst::Float(FloatOp::Compare64(FloatRelop::Eq)))
    } else if name == "f64.ne"@ {
        Some(Inst::Float(FloatOp::Compare64(FloatRelop::Ne)))
    } else if name == "f64.lt"@ {
        Some(Inst::Float(FloatOp::Compare64(FloatRelop::Lt)))
    } else if name == "f64.gt"@ {
        Some(Inst::Float(FloatOp::Compare64(FloatRelop::Gt)))
    } else if name == "f64.le"@ {
        Some(Inst::Float(FloatOp::Compare64(FloatRelop::Le)))
    } else if name == "f64.ge"@ {
        Some(Inst::Float(FloatOp::Compare64(FloatRelop::Ge)))
    } else if name == "f64.abs"@ {
        Some(Inst::Float(FloatOp::Unary64(FloatUnop::Abs)))
    } else if name == "f64.neg"@ {
        Some(Inst::Float(FloatOp::Unary64(FloatUnop::Neg)))
    } else if name == "f64.ceil"@ {
        Some(Inst::Float(FloatOp::Unary64(FloatUnop::Ceil)))
    } else if name == "f64.floor"@ {
        Some(Inst::Float(FloatOp::Unary64(FloatUnop::Floor)))
    } else if name == "f64.trunc"@ {
        Some(Inst::Float(FloatOp::Unary64(FloatUnop::Trunc)))
    } else if name == "f64.nearest"@ {
        Some(Inst::Float(FloatOp::Unary64(FloatUnop::Nearest)))
    } else if name == "f64.sqrt"@ {
        Some(Inst::Float(FloatOp::Unary64(FloatUnop::Sqrt)))
    } else if name == "f64.add"@ {
        Some(Inst::Float(FloatOp::Binary64(FloatBinop::Add)))
    } else if name == "f64.sub"@ {
        Some(Inst::Float(FloatOp::Binary64(FloatBinop::Sub)))
    } else if name == "f64.mul"@ {
        Some(Inst::Float(FloatOp::Binary64(FloatBinop::Mul)))
    } else if name == "f64.div"@ {
        Some(Inst::Float(FloatOp::Binary64(FloatBinop::Div)))
    } else if name == "f64.min"@ {
        Some(Inst::Float(FloatOp::Binary64(FloatBinop::Min)))
    } else if name == "f64.max"@ {
        Some(Inst::Float(FloatOp::Binary64(FloatBinop::Max)))
    } else if name == "f64.copysign"@ {
        Some(Inst::Float(FloatOp::Binary64(FloatBinop::Copysign)))
    } else if name == "i32.wrap_i64"@ {
        Some(Inst::Convert(IntConv::I32WrapI64))
    } else if name == "i64.extend_i32_s"@ {
        Some(Inst::Convert(IntConv::I64ExtendI32S))
    } else if name == "i64.extend_i32_u"@ {
        Some(Inst::Convert(IntConv::I64ExtendI32U))
    } else if name == "i32.reinterpret_f32"@ {
        Some(Inst::Convert(IntConv::I32ReinterpretF32))
    } else if name == "i64.reinterpret_f64"@ {
        Some(Inst::Convert(IntConv::I64ReinterpretF64))
    } else if name == "f32.reinterpret_i32"@ {
        Some(Inst::Convert(IntConv::F32ReinterpretI32))
    } else if name == "f64.reinterpret_i64"@ {
        Some(Inst::Convert(IntConv::F64ReinterpretI64))
    } else if name == "i32.trunc_f32_s"@ {
        Some(Inst::Float(FloatOp::Convert(FloatConv::I32TruncF32S)))
    } else if name == "i32.trunc_f32_u"@ {
        Some(Inst::Float(FloatOp::Convert(FloatConv::I32TruncF32U)))
    } else if name == "i32.trunc_f64_s"@ {
        Some(Inst::Float(FloatOp::Convert(FloatConv::I32TruncF64S)))
    } else if name == "i32.trunc_f64_u"@ {
        Some(Inst::Float(FloatOp::Convert(FloatConv::I32TruncF64U)))
    } else if name == "i64.trunc_f32_s"@ {
        Some(Inst::Float(FloatOp::Convert(FloatConv::I64TruncF32S)))
    } else if name == "i64.trunc_f32_u"@ {
        Some(Inst::Float(FloatOp::Convert(FloatConv::I64TruncF32U)))
    } else if name == "i64.trunc_f64_s"@ {
        Some(Inst::Float(FloatOp::Convert(FloatConv::I64TruncF64S)))
    } else if name == "i64.trunc_f64_u"@ {
        Some(Inst::Float(FloatOp::Convert(FloatConv::I64TruncF64U)))
    } else if name == "f32.convert_i32_s"@ {
        Some(Inst::Float(FloatOp::Convert(FloatConv::F32ConvertI32S)))
    } else if name == "f32.convert_i32_u"@ {
        Some(Inst::Float(FloatOp::Convert(FloatConv::F32ConvertI32U)))
    } else if name == "f32.convert_i64_s"@ {
        Some(Inst::Float(FloatOp::Convert(FloatConv::F32ConvertI64S)))
    } else if name == "f32.convert_i64_u"@ {
        Some(Inst::Float(FloatOp::Convert(FloatConv::F32ConvertI64U)))
    } else if name == "f32.demote_f64"@ {
        Some(Inst::Float(FloatOp::Convert(FloatConv::F32DemoteF64)))
    } else if name == "f64.convert_i32_s"@ {
        Some(Inst::Float(FloatOp::Convert(FloatConv::F64ConvertI32S)))
    } else if name == "f64.convert_i32_u"@ {
        Some(Inst::Float(FloatOp::Convert(FloatConv::F64ConvertI32U)))
    } else if name == "f64.convert_i64_s"@ {
        Some(Inst::Float(FloatOp::Convert(FloatConv::F64ConvertI64S)))
    } else if name == "f64.convert_i64_u"@ {
        Some(Inst::Float(FloatOp::Convert(FloatConv::F64ConvertI64U)))
    } else if name == "f64.promote_f32"@ {
        Some(Inst::Float(FloatOp::Convert(FloatConv::F64PromoteF32)))
    } else {
        None
    }
}

pub fn plain_name(name: &str) -> (r: Option<Inst>)
    ensures
        r == spec_plain_name(name@),
        r matches Some(i) ==> i.deep() == InstView::Plain(i),
{
    if str_eq(name, "unreachable") {
        Some(Inst::Unreachable)
    } else if str_eq(name, "nop") {
        Some(Inst::Nop)
    } else if str_eq(name, "return") {
        Some(Inst::Return)
    } else if str_eq(name, "drop") {
        Some(Inst::Drop)
    } else if str_eq(name, "select") {
        Some(Inst::Select)
    } else if str_eq(name, "memory.size") {
        Some(Inst::MemorySize)
    } else if str_eq(name, "memory.grow") {
        Some(Inst::MemoryGrow)
    } else if str_eq(name, "i32.eqz") {
        Some(Inst::I32Eqz)
    } else if str_eq(name, "i32.eq") {
        Some(Inst::I32Compare(IntRelop::Eq))
    } else if str_eq(name, "i32.ne") {
        Some(Inst::I32Compare(IntRelop::Ne))
    } else if str_eq(name, "i32.lt_s") {
        Some(Inst::I32Compare(IntRelop::LtS))
    } else if str_eq(name, "i32.lt_u") {
        Some(Inst::I32Compare(IntRelop::LtU))
    } else if str_eq(name, "i32.gt_s") {
        Some(Inst::I32Compare(IntRelop::GtS))
    } else if str_eq(name, "i32.gt_u") {
        Some(Inst::I32Compare(IntRelop::GtU))
    } else if str_eq(name, "i32.le_s") {
        Some(Inst::I32Compare(IntRelop::LeS))
    } else if str_eq(name, "i32.le_u") {
        Some(Inst::I32Compare(IntRelop::LeU))
    } else if str_eq(name, "i32.ge_s") {
        Some(Inst::I32Compare(IntRelop::GeS))
    } else if str_eq(name, "i32.ge_u") {
        Some(Inst::I32Compare(IntRelop::GeU))
    } else if str_eq(name, "i32.clz") {
        Some(Inst::I32Unary(IntUnop::Clz))
    } else if str_eq(name, "i32.ctz") {
        Some(Inst::I32Unary(IntUnop::Ctz))
    } else if str_eq(name, "i32.popcnt") {
        Some(Inst::I32Unary(IntUnop::Popcnt))
    } else if str_eq(name, "i32.add") {
        Some(Inst::I32Binary(IntBinop::Add))
    } else if str_eq(name, "i32.sub") {
        Some(Inst::I32Binary(IntBinop::Sub))
    } else if str_eq(name, "i32.mul") {
        Some(Inst::I32Binary(IntBinop::Mul))
    } else if str_eq(name, "i32.div_s") {
        Some(Inst::I32Binary(IntBinop::DivS))
    } else if str_eq(name, "i32.div_u") {
        Some(Inst::I32Binary(IntBinop::DivU))
    } else if str_eq(name, "i32.rem_s") {
        Some(Inst::I32Binary(IntBinop::RemS))
    } else if str_eq(name, "i32.rem_u") {
        Some(Inst::I32Binary(IntBinop::RemU))
    } else if str_eq(name, "i32.and") {
        Some(Inst::I32Binary(IntBinop::And))
    } else if str_eq(name, "i32.or") {
        Some(Inst::I32Binary(IntBinop::Or))
    } else if str_eq(name, "i32.xor") {
        Some(Inst::I32Binary(IntBinop::Xor))
    } else if str_eq(name, "i32.shl") {
        Some(Inst::I32Binary(IntBinop::Shl))
    } else if str_eq(name, "i32.shr_s") {
        Some(Inst::I32Binary(IntBinop::ShrS))
    } else if str_eq(name, "i32.shr_u") {
        Some(Inst::I32Binary(IntBinop::ShrU))
    } else if str_eq(name, "i32.rotl") {
        Some(Inst::I32Binary(IntBinop::Rotl))
    } else if str_eq(name, "i32.rotr") {
        Some(Inst::I32Binary(IntBinop::Rotr))
    } else if str_eq(name, "i64.eqz") {
        Some(Inst::I64Eqz)
    } else if str_eq(name, "i64.eq") {
        Some(Inst::I64Compare(IntRelop::Eq))
    } else if str_eq(name, "i64.ne") {
        Some(Inst::I64Compare(IntRelop::Ne))
    } else if str_eq(name, "i64.lt_s") {
        Some(Inst::I64Compare(IntRelop::LtS))
    } else if str_eq(name, "i64.lt_u") {
        Some(Inst::I64Compare(IntRelop::LtU))
    } else if str_eq(name, "i64.gt_s") {
        Some(Inst::I64Compare(IntRelop::GtS))
    } else if str_eq(name, "i64.gt_u") {
        Some(Inst::I64Compare(IntRelop::GtU))
    } else if str_eq(name, "i64.le_s") {
        Some(Inst::I64Compare(IntRelop::LeS))
    } else if str_eq(name, "i64.le_u") {
        Some(Inst::I64Compare(IntRelop::LeU))
    } else if str_eq(name, "i64.ge_s") {
        Some(Inst::I64Compare(IntRelop::GeS))
    } else if str_eq(name, "i64.ge_u") {
        Some(Inst::I64Compare(IntRelop::GeU))
    } else if str_eq(name, "i64.clz") {
        Some(Inst::I64Unary(IntUnop::Clz))
    } else if str_eq(name, "i64.ctz") {
        Some(Inst::I64Unary(IntUnop::Ctz))
    } else if str_eq(name, "i64.popcnt") {
        Some(Inst::I64Unary(IntUnop::Popcnt))
    } else if str_eq(name, "i64.add") {
        Some(Inst::I64Binary(IntBinop::Add))
    } else if str_eq(name, "i64.sub") {
        Some(Inst::I64Binary(IntBinop::Sub))
    } else if str_eq(name, "i64.mul") {
        Some(Inst::I64Binary(IntBinop::Mul))
    } else if str_eq(name, "i64.div_s") {
        Some(Inst::I64Binary(IntBinop::DivS))
    } else if str_eq(name, "i64.div_u") {
        Some(Inst::I64Binary(IntBinop::DivU))
    } else if str_eq(name, "i64.rem_s") {
        Some(Inst::I64Binary(IntBinop::RemS))
    } else if str_eq(name, "i64.rem_u") {
        Some(Inst::I64Binary(IntBinop::RemU))
    } else if str_eq(name, "i64.and") {
        Some(Inst::I64Binary(IntBinop::And))
    } else if str_eq(name, "i64.or") {
        Some(Inst::I64Binary(IntBinop::Or))
    } else if str_eq(name, "i64.xor") {
        Some(Inst::I64Binary(IntBinop::Xor))
    } else if str_eq(name, "i64.shl") {
        Some(Inst::I64Binary(IntBinop::Shl))
    } else if str_eq(name, "i64.shr_s") {
        Some(Inst::I64Binary(IntBinop::ShrS))
    } else if str_eq(name, "i64.shr_u") {
        Some(Inst::I64Binary(IntBinop::ShrU))
    } else if str_eq(name, "i64.rotl") {
        Some(Inst::I64Binary(IntBinop::Rotl))
    } else if str_eq(name, "i64.rotr") {
        Some(Inst::I64Binary(IntBinop::Rotr))
    } else if str_eq(name, "f32.eq") {
        Some(Inst::Float(FloatOp::Compare32(FloatRelop::Eq)))
    } else if str_eq(name, "f32.ne") {
        Some(Inst::Float(FloatOp::Compare32(FloatRelop::Ne)))
    } else if str_eq(name, "f32.lt") {
        Some(Inst::Float(FloatOp::Compare32(FloatRelop::Lt)))
    } else if str_eq(name, "f32.gt") {
        Some(Inst::Float(FloatOp::Compare32(FloatRelop::Gt)))
    } else if str_eq(name, "f32.le") {
        Some(Inst::Float(FloatOp::Compare32(FloatRelop::Le)))
    } else if str_eq(name, "f32.ge") {
        Some(Inst::Float(FloatOp::Compare32(FloatRelop::Ge)))
    } else if str_eq(name, "f32.abs") {
        Some(Inst::Float(FloatOp::Unary32(FloatUnop::Abs)))
    } else if str_eq(name, "f32.neg") {
        Some(Inst::Float(FloatOp::Unary32(FloatUnop::Neg)))
    } else if str_eq(name, "f32.ceil") {
        Some(Inst::Float(FloatOp::Unary32(FloatUnop::Ceil)))
    } else if str_eq(name, "f32.floor") {
        Some(Inst::Float(FloatOp::Unary32(FloatUnop::Floor)))
    } else if str_eq(name, "f32.trunc") {
        Some(Inst::Float(FloatOp::Unary32(FloatUnop::Trunc)))
    } else if str_eq(name, "f32.nearest") {
        Some(Inst::Float(FloatOp::Unary32(FloatUnop::Nearest)))
    } else if str_eq(name, "f32.sqrt") {
        Some(Inst::Float(FloatOp::Unary32(FloatUnop::Sqrt)))
    } else if str_eq(name, "f32.add") {
        Some(Inst::Float(FloatOp::Binary32(FloatBinop::Add)))
    } else if str_eq(name, "f32.sub") {
        Some(Inst::Float(FloatOp::Binary32(FloatBinop::Sub)))
    } else if str_eq(name, "f32.mul") {
        Some(Inst::Float(FloatOp::Binary32(FloatBinop::Mul)))
    } else if str_eq(name, "f32.div") {
        Some(Inst::Float(FloatOp::Binary32(FloatBinop::Div)))
    } else if str_eq(name, "f32.min") {
        Some(Inst::Float(FloatOp::Binary32(FloatBinop::Min)))
    } else if str_eq(name, "f32.max") {
        Some(Inst::Float(FloatOp::Binary32(FloatBinop::Max)))
    } else if str_eq(name, "f32.copysign") {
        Some(Inst::Float(FloatOp::Binary32(FloatBinop::Copysign)))
    } else if str_eq(name, "f64.eq") {
        Some(Inst::Float(FloatOp::Compare64(FloatRelop::Eq)))
    } else if str_eq(name, "f64.ne") {
        Some(Inst::Float(FloatOp::Compare64(FloatRelop::Ne)))
    } else if str_eq(name, "f64.lt") {
        Some(Inst::Float(FloatOp::Compare64(FloatRelop::Lt)))
    } else if str_eq(name, "f64.gt") {
        Some(Inst::Float(FloatOp::Compare64(FloatRelop::Gt)))
    } else if str_eq(name, "f64.le") {
        Some(Inst::Float(FloatOp::Compare64(FloatRelop::Le)))
    } else if str_eq(name, "f64.ge") {
        Some(Inst::Float(FloatOp::Compare64(FloatRelop::Ge)))
    } else if str_eq(name, "f64.abs") {
        Some(Inst::Float(FloatOp::Unary64(FloatUnop::Abs)))
    } else if str_eq(name, "f64.neg") {
        Some(Inst::Float(FloatOp::Unary64(FloatUnop::Neg)))
    } else if str_eq(name, "f64.ceil") {
        Some(Inst::Float(FloatOp::Unary64(FloatUnop::Ceil)))
    } else if str_eq(name, "f64.floor") {
        Some(Inst::Float(FloatOp::Unary64(FloatUnop::Floor)))
    } else if str_eq(name, "f64.trunc") {
        Some(Inst::Float(FloatOp::Unary64(FloatUnop::Trunc)))
    } else if str_eq(name, "f64.nearest") {
        Some(Inst::Float(FloatOp::Unary64(FloatUnop::Nearest)))
    } else if str_eq(name, "f64.sqrt") {
        Some(Inst::Float(FloatOp::Unary64(FloatUnop::Sqrt)))
    } else if str_eq(name, "f64.add") {
        Some(Inst::Float(FloatOp::Binary64(FloatBinop::Add)))
    } else if str_eq(name, "f64.sub") {
        Some(Inst::Float(FloatOp::Binary64(FloatBinop::Sub)))
    } else if str_eq(name, "f64.mul") {
        Some(Inst::Float(FloatOp::Binary64(FloatBinop::Mul)))
    } else if str_eq(name, "f64.div") {
        Some(Inst::Float(FloatOp::Binary64(FloatBinop::Div)))
    } else if str_eq(name, "f64.min") {
        Some(Inst::Float(FloatOp::Binary64(FloatBinop::Min)))
    } else if str_eq(name, "f64.max") {
        Some(Inst::Float(FloatOp::Binary64(FloatBinop::Max)))
    } else if str_eq(name, "f64.copysign") {
        Some(Inst::Float(FloatOp::Binary64(FloatBinop::Copysign)))
    } else if str_eq(name, "i32.wrap_i64") {
        Some(Inst::Convert(IntConv::I32WrapI64))
    } else if str_eq(name, "i64.extend_i32_s") {
        Some(Inst::Convert(IntConv::I64ExtendI32S))
    } else if str_eq(name, "i64.extend_i32_u") {
        Some(Inst::Convert(IntConv::I64ExtendI32U))
    } else if str_eq(name, "i32.reinterpret_f32") {
        Some(Inst::Convert(IntConv::I32ReinterpretF32))
    } else if str_eq(name, "i64.reinterpret_f64") {
        Some(Inst::Convert(IntConv::I64ReinterpretF64))
    } else if str_eq(name, "f32.reinterpret_i32") {
        Some(Inst::Convert(IntConv::F32ReinterpretI32))
    } else if str_eq(name, "f64.reinterpret_i64") {
        Some(Inst::Convert(IntConv::F64ReinterpretI64))
    } else if str_eq(name, "i32.trunc_f32_s") {
        Some(Inst::Float(FloatOp::Convert(FloatConv::I32TruncF32S)))
    } else if str_eq(name, "i32.trunc_f32_u") {
        Some(Inst::Float(FloatOp::Convert(FloatConv::I32TruncF32U)))
    } else if str_eq(name, "i32.trunc_f64_s") {
        Some(Inst::Float(FloatOp::Convert(FloatConv::I32TruncF64S)))
    } else if str_eq(name, "i32.trunc_f64_u") {
        Some(Inst::Float(FloatOp::Convert(FloatConv::I32TruncF64U)))
    } else if str_eq(name, "i64.trunc_f32_s") {
        Some(Inst::Float(FloatOp::Convert(FloatConv::I64TruncF32S)))
    } else if str_eq(name, "i64.trunc_f32_u") {
        Some(Inst::Float(FloatOp::Convert(FloatConv::I64TruncF32U)))
    } else if str_eq(name, "i64.trunc_f64_s") {
        Some(Inst::Float(FloatOp::Convert(FloatConv::I64TruncF64S)))
    } else if str_eq(name, "i64.trunc_f64_u") {
        Some(Inst::Float(FloatOp::Convert(FloatConv::I64TruncF64U)))
    } else if str_eq(name, "f32.convert_i32_s") {
        Some(Inst::Float(FloatOp::Convert(FloatConv::F32ConvertI32S)))
    } else if str_eq(name, "f32.convert_i32_u") {
        Some(Inst::Float(FloatOp::Convert(FloatConv::F32ConvertI32U)))
    } else if str_eq(name, "f32.convert_i64_s") {
        Some(Inst::Float(FloatOp::Convert(FloatConv::F32ConvertI64S)))
    } else if str_eq(name, "f32.convert_i64_u") {
        Some(Inst::Float(FloatOp::Convert(FloatConv::F32ConvertI64U)))
    } else if str_eq(name, "f32.demote_f64") {
        Some(Inst::Float(FloatOp::Convert(FloatConv::F32DemoteF64)))
    } else if str_eq(name, "f64.convert_i32_s") {
        Some(Inst::Float(FloatOp::Convert(FloatConv::F64ConvertI32S)))
    } else if str_eq(name, "f64.convert_i32_u") {
        Some(Inst::Float(FloatOp::Convert(FloatConv::F64ConvertI32U)))
    } else if str_eq(name, "f64.convert_i64_s") {
        Some(Inst::Float(FloatOp::Convert(FloatConv::F64ConvertI64S)))
    } else if str_eq(name, "f64.convert_i64_u") {
        Some(Inst::Float(FloatOp::Convert(FloatConv::F64ConvertI64U)))
    } else if str_eq(name, "f64.promote_f32") {
        Some(Inst::Float(FloatOp::Convert(FloatConv::F64PromoteF32)))
    } else {
        None
    }
}

/// The load that a name stands for.
pub open spec fn spec_load_name(name: Seq<char>) -> Option<LoadOp> {
    if name == "i32.load"@ {
        Some(LoadOp::I32Load)
    } else if name == "i64.load"@ {
        Some(LoadOp::I64Load)
    } else if name == "f32.load"@ {
        Some(LoadOp::F32Load)
    } else if name == "f64.load"@ {
        Some(LoadOp::F64Load)
    } else if name == "i32.load8_s"@ {
        Some(LoadOp::I32Load8S)
    } else if name == "i32.load8_u"@ {
        Some(LoadOp::I32Load8U)
    } else if name == "i32.load16_s"@ {
        Some(LoadOp::I32Load16S)
    } else if name == "i32.load16_u"@ {
        Some(LoadOp::I32Load16U)
    } else if name == "i64.load8_s"@ {
        Some(LoadOp::I64Load8S)
    } else if name == "i64.load8_u"@ {
        Some(LoadOp::I64Load8U)
    } else if name == "i64.load16_s"@ {
        Some(LoadOp::I64Load16S)
    } else if name == "i64.load16_u"@ {
        Some(LoadOp::I64Load16U)
    } else if name == "i64.load32_s"@ {
        Some(LoadOp::I64Load32S)
    } else if name == "i64.load32_u"@ {
        Some(LoadOp::I64Load32U)
    } else {
        None
    }
}

pub fn load_name(name: &str) -> (r: Option<LoadOp>)
    ensures
        r == spec_load_name(name@),
{
    if str_eq(name, "i32.load") {
        Some(LoadOp::I32Load)
    } else if str_eq(name, "i64.load") {
        Some(LoadOp::I64Load)
    } else if str_eq(name, "f32.load") {
        Some(LoadOp::F32Load)
    } else if str_eq(name, "f64.load") {
        Some(LoadOp::F64Load)
    } else if str_eq(name, "i32.load8_s") {
        Some(LoadOp::I32Load8S)
    } else if str_eq(name, "i32.load8_u") {
        Some(LoadOp::I32Load8U)
    } else if str_eq(name, "i32.load16_s") {
        Some(LoadOp::I32Load16S)
    } else if str_eq(name, "i32.load16_u") {
        Some(LoadOp::I32Load16U)
    } else if str_eq(name, "i64.load8_s") {
        Some(LoadOp::I64Load8S)
    } else if str_eq(name, "i64.load8_u") {
        Some(LoadOp::I64Load8U)
    } else if str_eq(name, "i64.load16_s") {
        Some(LoadOp::I64Load16S)
    } else if str_eq(name, "i64.load16_u") {
        Some(LoadOp::I64Load16U)
    } else if str_eq(name, "i64.load32_s") {
        Some(LoadOp::I64Load32S)
    } else if str_eq(name, "i64.load32_u") {
        Some(LoadOp::I64Load32U)
    } else {
        None
    }
}

/// The store that a name stands for.
pub open spec fn spec_store_name(name: Seq<char>) -> Option<StoreOp> {
    if name == "i32.store"@ {
        Some(StoreOp::I32Store)
    } else if name == "i64.store"@ {
        Some(StoreOp::I64Store)
    } else if name == "f32.store"@ {
        Some(StoreOp::F32Store)
    } else if name == "f64.store"@ {
        Some(StoreOp::F64Store)
    } else if name == "i32.store8"@ {
        Some(StoreOp::I32Store8)
    } else if name == "i32.store16"@ {
        Some(StoreOp::I32Store16)
    } else if name == "i64.store8"@ {
        Some(StoreOp::I64Store8)
    } else if name == "i64.store16"@ {
        Some(StoreOp::I64Store16)
    } else if name == "i64.store32"@ {
        Some(StoreOp::I64Store32)
    } else {
        None
    }
}

pub fn store_name(name: &str) -> (r: Option<StoreOp>)
    ensures
        r == spec_store_name(name@),
{
    if str_eq(name, "i32.store") {
        Some(StoreOp::I32Store)
    } else if str_eq(name, "i64.store") {
        Some(StoreOp::I64Store)
    } else if str_eq(name, "f32.store") {
        Some(StoreOp::F32Store)
    } else if str_eq(name, "f64.store") {
        Some(StoreOp::F64Store)
    } else if str_eq(name, "i32.store8") {
        Some(StoreOp::I32Store8)
    } else if str_eq(name, "i32.store16") {
        Some(StoreOp::I32Store16)
    } else if str_eq(name, "i64.store8") {
        Some(StoreOp::I64Store8)
    } else if str_eq(name, "i64.store16") {
        Some(StoreOp::I64Store16)
    } else if str_eq(name, "i64.store32") {
        Some(StoreOp::I64Store32)
    } else {
        None
    }
}

/// The value type that a name stands for.
pub open spec fn spec_valtype_name(name: Seq<char>) -> Option<ValType> {
    if name == "i32"@ {
        Some(ValType::I32)
    } else if name == "i64"@ {
        Some(ValType::I64)
    } else if name == "f32"@ {
        Some(ValType::F32)
    } else if name == "f64"@ {
        Some(ValType::F64)
    } else if name == "v128"@ {
        Some(ValType::V128)
    } else if name == "funcref"@ {
        Some(ValType::FuncRef)
    } else if name == "externref"@ {
        Some(ValType::ExternRef)
    } else if name == "func"@ {
        Some(ValType::FuncRef)
    } else if name == "extern"@ {
        Some(ValType::ExternRef)
    } else {
        None
    }
}

pub fn valtype_name(name: &str) -> (r: Option<ValType>)
    ensures
        r == spec_valtype_name(name@),
{
    if str_eq(name, "i32") {
        Some(ValType::I32)
    } else if str_eq(name, "i64") {
        Some(ValType::I64)
    } else if str_eq(name, "f32") {
        Some(ValType::F32)
    } else if str_eq(name, "f64") {
        Some(ValType::F64)
    } else if str_eq(name, "v128") {
        Some(ValType::V128)
    } else if str_eq(name, "funcref") {
        Some(ValType::FuncRef)
    } else if str_eq(name, "externref") {
        Some(ValType::ExternRef)
    } else if str_eq(name, "func") {
        Some(ValType::FuncRef)
    } else if str_eq(name, "extern") {
        Some(ValType::ExternRef)
    } else {
        None
    }
}


/// The result of a parser with the error placed in a context.
pub open spec fn spec_in_context<T>(r: Result<T, ParseError>, ctx: ParseContext) -> Result<T, ParseError> {
    match r {
        Ok(v) => Ok(v),
        Err(e) => Err(ParseError::Context(ctx, Box::new(e))),
    }
}

/// Whether the token at `pos` is `(`.
pub open spec fn spec_is_lparen(ts: Seq<TokenView>, pos: int) -> bool {
    0 <= pos < ts.len() && ts[pos] is LeftParen
}

/// Whether the token at `pos` is `)`.
pub open spec fn spec_is_rparen(ts: Seq<TokenView>, pos: int) -> bool {
    0 <= pos < ts.len() && ts[pos] is RightParen
}

/// Whether the token at `pos` is the atom `name`.
pub open spec fn spec_is_atom(ts: Seq<TokenView>, pos: int, name: Seq<char>) -> bool {
    0 <= pos < ts.len() && ts[pos] == TokenView::Atom(name)
}

/// The atom that follows a `(` at `pos`: the word with which a form begins.
pub open spec fn spec_decl(ts: Seq<TokenView>, pos: int) -> Result<Seq<char>, ParseError> {
    if pos < 0 || pos >= ts.len() {
        Err(ParseError::UnexpectedEot)
    } else if !(ts[pos] is LeftParen) {
        Err(ParseError::FailedExpectedToken)
    } else if pos + 1 >= ts.len() {
        Err(ParseError::UnexpectedEot)
    } else {
        match ts[pos + 1] {
            TokenView::Atom(a) => Ok(a),
            _ => Err(ParseError::FailedExpectedToken),
        }
    }
}

/// Whether a form that begins with the word `name` stands at `pos`.
pub open spec fn spec_is_decl(ts: Seq<TokenView>, pos: int, name: Seq<char>) -> bool {
    spec_decl(ts, pos) == Ok::<Seq<char>, ParseError>(name)
}

/// The position after `(`, or the error.
pub open spec fn spec_lparen(ts: Seq<TokenView>, pos: int) -> Result<int, ParseError> {
    if spec_is_lparen(ts, pos) {
        Ok(pos + 1)
    } else {
        Err(ParseError::ExpectedLparen)
    }
}

/// The position after `)`, or the error.
pub open spec fn spec_rparen(ts: Seq<TokenView>, pos: int) -> Result<int, ParseError> {
    if spec_is_rparen(ts, pos) {
        Ok(pos + 1)
    } else {
        Err(ParseError::ExpectedRparen)
    }
}

/// The position after the atom `name`, or the error.
pub open spec fn spec_atom(ts: Seq<TokenView>, pos: int, name: Seq<char>) -> Result<int, ParseError> {
    if spec_is_atom(ts, pos, name) {
        Ok(pos + 1)
    } else {
        Err(ParseError::FailedExpectedToken)
    }
}

/// The position after `(` and the atom `name`, or the error.
pub open spec fn spec_open(ts: Seq<TokenView>, pos: int, name: Seq<char>) -> Result<int, ParseError> {
    match spec_lparen(ts, pos) {
        Err(e) => Err(e),
        Ok(p) => spec_atom(ts, p, name),
    }
}

/// The position after a name at `pos`, if one stands there.
pub open spec fn spec_skip_name(ts: Seq<TokenView>, pos: int) -> int {
    if 0 <= pos < ts.len() && ts[pos] is Name {
        pos + 1
    } else {
        pos
    }
}

/// The value type at `pos`, if one stands there.
pub open spec fn spec_valtype(ts: Seq<TokenView>, pos: int) -> Option<ValType> {
    if 0 <= pos < ts.len() {
        match ts[pos] {
            TokenView::Atom(a) => spec_valtype_name(a),
            _ => None,
        }
    } else {
        None
    }
}

/// The value types from `pos` on and the position after them.
pub open spec fn spec_valtypes(ts: Seq<TokenView>, pos: int) -> (Seq<ValType>, int)
    decreases ts.len() - pos,
{
    match spec_valtype(ts, pos) {
        None => (Seq::empty(), pos),
        Some(t) => {
            let (rest, q) = spec_valtypes(ts, pos + 1);
            (seq![t] + rest, q)
        },
    }
}

/// The types of a form `(word type*)` at `pos`, in which a name may
/// precede the types, and the position after it; `None` if no such form
/// stands there.
pub open spec fn spec_type_list(ts: Seq<TokenView>, pos: int, word: Seq<char>) -> Result<
    Option<(Seq<ValType>, int)>,
    ParseError,
> {
    if !spec_is_decl(ts, pos, word) {
        Ok(None)
    } else {
        let (types, q) = spec_valtypes(ts, spec_skip_name(ts, pos + 2));
        match spec_rparen(ts, q) {
            Err(e) => Err(e),
            Ok(r) => Ok(Some((types, r))),
        }
    }
}

/// The types of the forms `(word type*)` from `pos` on, joined, and the
/// position after the forms.
pub open spec fn spec_type_lists(ts: Seq<TokenView>, pos: int, word: Seq<char>) -> Result<
    (Seq<ValType>, int),
    ParseError,
>
    decreases ts.len() - pos,
{
    match spec_type_list(ts, pos, word) {
        Err(e) => Err(e),
        Ok(None) => Ok((Seq::empty(), pos)),
        Ok(Some((types, q))) => if q <= pos || q > ts.len() {
            Err(ParseError::UnexpectedEot)
        } else {
            match spec_type_lists(ts, q, word) {
                Err(e) => Err(e),
                Ok((rest, r)) => Ok((types + rest, r)),
            }
        },
    }
}

/// The function type `(func param* result*)` at `pos` and the position
/// after it.
pub open spec fn spec_functype(ts: Seq<TokenView>, pos: int) -> Result<
    ((Seq<ValType>, Seq<ValType>), int),
    ParseError,
> {
    match spec_open(ts, pos, "func"@) {
        Err(e) => Err(e),
        Ok(p) => match spec_in_context(spec_type_lists(ts, p, "param"@), ParseContext::Params) {
            Err(e) => Err(e),
            Ok((from, q)) => match spec_in_context(
                spec_type_lists(ts, q, "result"@),
                ParseContext::Result,
            ) {
                Err(e) => Err(e),
                Ok((to, r)) => match spec_rparen(ts, r) {
                    Err(e) => Err(e),
                    Ok(s) => Ok(((from, to), s)),
                },
            },
        },
    }
}

/// The type definition `(type name? functype)` at `pos` and the position
/// after it.
pub open spec fn spec_type(ts: Seq<TokenView>, pos: int) -> Result<
    ((Seq<ValType>, Seq<ValType>), int),
    ParseError,
> {
    match spec_open(ts, pos, "type"@) {
        Err(e) => Err(e),
        Ok(p) => match spec_in_context(
            spec_functype(ts, spec_skip_name(ts, p)),
            ParseContext::FuncType,
        ) {
            Err(e) => Err(e),
            Ok((ft, q)) => match spec_rparen(ts, q) {
                Err(e) => Err(e),
                Ok(r) => Ok((ft, r)),
            },
        },
    }
}

/// The natural number at `pos`, which must fit in 32 bits, and the
/// position after it.
pub open spec fn spec_index(ts: Seq<TokenView>, pos: int) -> Result<(u32, int), ParseError> {
    if pos < 0 || pos >= ts.len() {
        Err(ParseError::UnexpectedEot)
    } else {
        match ts[pos] {
            TokenView::Nat(n) => if n <= u32::MAX {
                Ok((n as u32, pos + 1))
            } else {
                Err(ParseError::NumberOutOfRange)
            },
            _ => Err(ParseError::FailedExpectedToken),
        }
    }
}

/// The use of a type `(type index)` at `pos`, and the position after it
/// and after the parameters and results that may repeat the type.
pub open spec fn spec_typeuse(ts: Seq<TokenView>, pos: int) -> Result<(TypeIdx, int), ParseError> {
    match spec_open(ts, pos, "type"@) {
        Err(e) => Err(e),
        Ok(p) => match spec_index(ts, p) {
            Err(e) => Err(e),
            Ok((idx, q)) => match spec_rparen(ts, q) {
                Err(e) => Err(e),
                Ok(r) => match spec_type_lists(ts, r, "param"@) {
                    Err(e) => Err(e),
                    Ok((_, s)) => match spec_type_lists(ts, s, "result"@) {
                        Err(e) => Err(e),
                        Ok((_, t)) => Ok((TypeIdx(idx), t)),
                    },
                },
            },
        },
    }
}

/// The text of the string at `pos` and the position after it.
pub open spec fn spec_string(ts: Seq<TokenView>, pos: int) -> Result<(Seq<u8>, int), ParseError> {
    if pos < 0 || pos >= ts.len() {
        Err(ParseError::UnexpectedEot)
    } else {
        match ts[pos] {
            TokenView::Text(b) => Ok((b, pos + 1)),
            _ => Err(ParseError::FailedExpectedToken),
        }
    }
}

/// The name that the string at `pos` spells, and the position after it.
pub open spec fn spec_name(ts: Seq<TokenView>, pos: int) -> Result<(Seq<char>, int), ParseError> {
    match spec_string(ts, pos) {
        Err(e) => Err(e),
        Ok((b, p)) => if valid_utf8(b) {
            Ok((decode_utf8(b), p))
        } else {
            Err(ParseError::InvalidUtf8)
        },
    }
}

/// The limits at `pos` and the position after them: a lower bound and, if
/// a number follows, an upper bound.
pub open spec fn spec_limits(ts: Seq<TokenView>, pos: int) -> Result<(Limits, int), ParseError> {
    match spec_index(ts, pos) {
        Err(e) => Err(e),
        Ok((min, p)) => if 0 <= p < ts.len() && ts[p] is Nat {
            match spec_index(ts, p) {
                Err(e) => Err(e),
                Ok((max, q)) => Ok((Limits { min, max: Some(max) }, q)),
            }
        } else {
            Ok((Limits { min, max: None }, p))
        },
    }
}

/// The reference type at `pos` and the position after it.
pub open spec fn spec_reftype(ts: Seq<TokenView>, pos: int) -> Result<(Reftype, int), ParseError> {
    match spec_valtype(ts, pos) {
        Some(ValType::FuncRef) => Ok((Reftype::Funcref, pos + 1)),
        Some(ValType::ExternRef) => Ok((Reftype::Externref, pos + 1)),
        _ => Err(ParseError::FailedExpectedToken),
    }
}

/// The table type at `pos` and the position after it.
pub open spec fn spec_tabletype(ts: Seq<TokenView>, pos: int) -> Result<(TableType, int), ParseError> {
    match spec_limits(ts, pos) {
        Err(e) => Err(e),
        Ok((limits, p)) => match spec_reftype(ts, p) {
            Err(e) => Err(e),
            Ok((reftype, q)) => Ok((TableType { reftype, limits }, q)),
        },
    }
}

/// The global type at `pos` and the position after it: a value type, or
/// `(mut type)`.
pub open spec fn spec_globaltype(ts: Seq<TokenView>, pos: int) -> Result<(GlobalType, int), ParseError> {
    if spec_is_decl(ts, pos, "mut"@) {
        match spec_valtype(ts, pos + 2) {
            None => Err(ParseError::FailedExpectedToken),
            Some(t) => match spec_rparen(ts, pos + 3) {
                Err(e) => Err(e),
                Ok(q) => Ok((GlobalType { mutable: true, t }, q)),
            },
        }
    } else {
        match spec_valtype(ts, pos) {
            None => Err(ParseError::FailedExpectedToken),
            Some(t) => Ok((GlobalType { mutable: false, t }, pos + 1)),
        }
    }
}

/// The description `(func name? typeuse)` of an imported function at
/// `pos`, and the position after it.
pub open spec fn spec_importdesc_func(ts: Seq<TokenView>, pos: int) -> Result<(ImportDesc, int), ParseError> {
    match spec_open(ts, pos, "func"@) {
        Err(e) => Err(e),
        Ok(p) => match spec_typeuse(ts, spec_skip_name(ts, p)) {
            Err(e) => Err(e),
            Ok((t, q)) => match spec_rparen(ts, q) {
                Err(e) => Err(e),
                Ok(r) => Ok((ImportDesc::Func(t), r)),
            },
        },
    }
}

/// What an import describes, at `pos`, and the position after it.
pub open spec fn spec_importdesc(ts: Seq<TokenView>, pos: int) -> Result<(ImportDesc, int), ParseError> {
    match spec_decl(ts, pos) {
        Err(e) => Err(e),
        Ok(word) => {
            let p = spec_skip_name(ts, pos + 2);
            if word == "func"@ {
                spec_importdesc_func(ts, pos)
            } else if word == "table"@ {
                match spec_tabletype(ts, p) {
                    Err(e) => Err(e),
                    Ok((t, q)) => match spec_rparen(ts, q) {
                        Err(e) => Err(e),
                        Ok(r) => Ok((ImportDesc::Table(t), r)),
                    },
                }
            } else if word == "memory"@ {
                match spec_limits(ts, p) {
                    Err(e) => Err(e),
                    Ok((limits, q)) => match spec_rparen(ts, q) {
                        Err(e) => Err(e),
                        Ok(r) => Ok((ImportDesc::Mem(MemType { limits }), r)),
                    },
                }
            } else if word == "global"@ {
                match spec_globaltype(ts, p) {
                    Err(e) => Err(e),
                    Ok((t, q)) => match spec_rparen(ts, q) {
                        Err(e) => Err(e),
                        Ok(r) => Ok((ImportDesc::Global(t), r)),
                    },
                }
            } else {
                Err(ParseError::UnexpectedImport)
            }
        },
    }
}

/// The import `(import module field desc)` at `pos` and the position
/// after it.
pub open spec fn spec_import(ts: Seq<TokenView>, pos: int) -> Result<(ImportView, int), ParseError> {
    match spec_open(ts, pos, "import"@) {
        Err(e) => Err(e),
        Ok(p) => match spec_name(ts, p) {
            Err(e) => Err(e),
            Ok((module, q)) => match spec_name(ts, q) {
                Err(e) => Err(e),
                Ok((nm, r)) => match spec_importdesc(ts, r) {
                    Err(e) => Err(e),
                    Ok((desc, s)) => match spec_rparen(ts, s) {
                        Err(e) => Err(e),
                        Ok(t) => Ok((ImportView { module, nm, desc }, t)),
                    },
                },
            },
        },
    }
}

/// The declarations of locals of a form `(local type*)` at `pos`, one for
/// each type, and the position after it; `None` if no such form stands
/// there.
pub open spec fn spec_local(ts: Seq<TokenView>, pos: int) -> Result<Option<(Seq<Locals>, int)>, ParseError> {
    match spec_type_list(ts, pos, "local"@) {
        Err(e) => Err(e),
        Ok(None) => Ok(None),
        Ok(Some((types, q))) => Ok(
            Some((Seq::new(types.len(), |i: int| Locals { n: 1, t: types[i] }), q)),
        ),
    }
}

/// The declarations of locals of the forms `(local type*)` from `pos` on,
/// and the position after the forms.
pub open spec fn spec_locals(ts: Seq<TokenView>, pos: int) -> Result<(Seq<Locals>, int), ParseError> {
    match spec_type_lists(ts, pos, "local"@) {
        Err(e) => Err(e),
        Ok((types, q)) => Ok((Seq::new(types.len(), |i: int| Locals { n: 1, t: types[i] }), q)),
    }
}

/// The signed number of 32 or 64 bits at `pos` and the position after it:
/// a natural number or an integer that the width can hold, signed or
/// unsigned.
pub open spec fn spec_number(ts: Seq<TokenView>, pos: int, wide: bool) -> Result<(i64, int), ParseError> {
    if pos < 0 || pos >= ts.len() {
        Err(ParseError::UnexpectedEot)
    } else {
        match ts[pos] {
            TokenView::Nat(n) => if wide {
                Ok((spec_wrap64(n as int), pos + 1))
            } else if n <= u32::MAX {
                Ok((spec_wrap32(n as int) as i64, pos + 1))
            } else {
                Err(ParseError::NumberOutOfRange)
            },
            TokenView::Int(i) => if wide || (i32::MIN <= i <= u32::MAX) {
                Ok((if wide { i } else { spec_wrap32(i as int) as i64 }, pos + 1))
            } else {
                Err(ParseError::NumberOutOfRange)
            },
            _ => Err(ParseError::FailedExpectedToken),
        }
    }
}

/// The bits of the floating-point literal at `pos` and the position after
/// it. Of the literals only zero, the infinities and the not-a-number are
/// turned into bits here; `wide` selects 64 bits. Without a sign `inf` and
/// `nan` are atoms.
pub open spec fn spec_float_bits(ts: Seq<TokenView>, pos: int, wide: bool) -> Result<(u64, int), ParseError> {
    if pos < 0 || pos >= ts.len() {
        Err(ParseError::UnexpectedEot)
    } else {
        match ts[pos] {
            TokenView::Float(text) => if text == "inf"@ || text == "+inf"@ {
                Ok((if wide { 0x7FF0_0000_0000_0000u64 } else { 0x7F80_0000u64 }, pos + 1))
            } else if text == "-inf"@ {
                Ok((if wide { 0xFFF0_0000_0000_0000u64 } else { 0xFF80_0000u64 }, pos + 1))
            } else if text == "nan"@ || text == "+nan"@ {
                Ok((if wide { 0x7FF8_0000_0000_0000u64 } else { 0x7FC0_0000u64 }, pos + 1))
            } else if text == "-nan"@ {
                Ok((if wide { 0xFFF8_0000_0000_0000u64 } else { 0xFFC0_0000u64 }, pos + 1))
            } else {
                Err(ParseError::UnsupportedFloat)
            },
            TokenView::Atom(text) => if text == "inf"@ {
                Ok((if wide { 0x7FF0_0000_0000_0000u64 } else { 0x7F80_0000u64 }, pos + 1))
            } else if text == "nan"@ {
                Ok((if wide { 0x7FF8_0000_0000_0000u64 } else { 0x7FC0_0000u64 }, pos + 1))
            } else {
                Err(ParseError::FailedExpectedToken)
            },
            TokenView::Nat(n) => if n == 0 {
                Ok((0, pos + 1))
            } else {
                Err(ParseError::UnsupportedFloat)
            },
            _ => Err(ParseError::FailedExpectedToken),
        }
    }
}

/// The value of a field `word=number` at `pos`, if it stands there, and
/// the position after it.
pub open spec fn spec_field(ts: Seq<TokenView>, pos: int, word: Seq<char>) -> Result<
    Option<(u32, int)>,
    ParseError,
> {
    if spec_is_atom(ts, pos, word) && 0 <= pos + 1 < ts.len() && ts[pos + 1] is Equal {
        match spec_index(ts, pos + 2) {
            Err(e) => Err(e),
            Ok((v, q)) => Ok(Some((v, q))),
        }
    } else {
        Ok(None)
    }
}

/// The binary logarithm of an alignment in bytes: 1, 2, 4 or 8.
pub open spec fn spec_log2(bytes: u32) -> Option<u32> {
    if bytes == 1 {
        Some(0u32)
    } else if bytes == 2 {
        Some(1u32)
    } else if bytes == 4 {
        Some(2u32)
    } else if bytes == 8 {
        Some(3u32)
    } else {
        None
    }
}

/// The immediate of a load or store of `width` bytes at `pos`, and the
/// position after it: `offset=number` and `align=number` may stand there;
/// without them the offset is 0 and the alignment that of the width.
pub open spec fn spec_memarg(ts: Seq<TokenView>, pos: int, width: u64) -> Result<(MemArg, int), ParseError> {
    match spec_field(ts, pos, "offset"@) {
        Err(e) => Err(e),
        Ok(offset) => {
            let p = match offset {
                Some((_, p)) => p,
                None => pos,
            };
            match spec_field(ts, p, "align"@) {
                Err(e) => Err(e),
                Ok(align) => {
                    let q = match align {
                        Some((_, q)) => q,
                        None => p,
                    };
                    let bytes = match align {
                        Some((a, _)) => a,
                        None => width as u32,
                    };
                    match spec_log2(bytes) {
                        None => Err(ParseError::NumberOutOfRange),
                        Some(log) => Ok(
                            (
                                MemArg {
                                    align: log,
                                    offset: match offset {
                                        Some((o, _)) => o,
                                        None => 0,
                                    },
                                },
                                q,
                            ),
                        ),
                    }
                },
            }
        },
    }
}

/// The block type at `pos` and the position after it: `(result type)`,
/// `(type index)`, or nothing.
pub open spec fn spec_blocktype(ts: Seq<TokenView>, pos: int) -> Result<(BlockType, int), ParseError> {
    if spec_is_decl(ts, pos, "result"@) {
        match spec_valtype(ts, pos + 2) {
            None => Err(ParseError::FailedExpectedToken),
            Some(t) => match spec_rparen(ts, pos + 3) {
                Err(e) => Err(e),
                Ok(q) => Ok((BlockType::Inline(t), q)),
            },
        }
    } else if spec_is_decl(ts, pos, "type"@) {
        match spec_index(ts, pos + 2) {
            Err(e) => Err(e),
            Ok((idx, p)) => match spec_rparen(ts, p) {
                Err(e) => Err(e),
                Ok(q) => Ok((BlockType::Type(TypeIdx(idx)), q)),
            },
        }
    } else {
        Ok((BlockType::Empty, pos))
    }
}

/// The numbers from `pos` on and the position after them.
pub open spec fn spec_indices(ts: Seq<TokenView>, pos: int) -> Result<(Seq<u32>, int), ParseError>
    decreases ts.len() - pos,
{
    if 0 <= pos < ts.len() && ts[pos] is Nat {
        match spec_index(ts, pos) {
            Err(e) => Err(e),
            Ok((v, _)) => match spec_indices(ts, pos + 1) {
                Err(e) => Err(e),
                Ok((rest, q)) => Ok((seq![v] + rest, q)),
            },
        }
    } else {
        Ok((Seq::empty(), pos))
    }
}

/// Whether an instruction begins at `pos`: an atom other than `end` and
/// `else`.
pub open spec fn spec_starts_instr(ts: Seq<TokenView>, pos: int) -> bool {
    0 <= pos < ts.len() && ts[pos] is Atom && ts[pos] != TokenView::Atom("end"@) && ts[pos]
        != TokenView::Atom("else"@)
}

/// A result with the instructions `acc` in front.
pub open spec fn spec_instrs_after(acc: Seq<InstView>, r: Result<(Seq<InstView>, int), ParseError>) -> Result<
    (Seq<InstView>, int),
    ParseError,
> {
    match r {
        Ok((s, q)) => Ok((acc + s, q)),
        Err(e) => Err(e),
    }
}

/// The instruction at `pos`, which begins with the atom `name`, and the
/// position after it.
pub open spec fn spec_instr(ts: Seq<TokenView>, pos: int) -> Result<(InstView, int), ParseError>
    decreases ts.len() - pos, 0nat,
{
    if !spec_starts_instr(ts, pos) {
        Err(ParseError::FailedExpectedToken)
    } else {
        let name = ts[pos]->Atom_0;
        let p = pos + 1;
        if name == "block"@ || name == "loop"@ || name == "if"@ {
            match spec_blocktype(ts, p) {
                Err(e) => Err(e),
                Ok((bt, q)) => if q <= pos || q > ts.len() {
                    Err(ParseError::UnexpectedEot)
                } else {
                    match spec_instrs(ts, q) {
                        Err(e) => Err(e),
                        Ok((first, r)) => if r < pos {
                            Err(ParseError::UnexpectedEot)
                        } else if name == "if"@ && spec_is_atom(ts, r, "else"@) {
                            match spec_instrs(ts, r + 1) {
                                Err(e) => Err(e),
                                Ok((second, s)) => match spec_atom(ts, s, "end"@) {
                                    Err(e) => Err(e),
                                    Ok(t) => Ok((InstView::IfElse(bt, first, second), t)),
                                },
                            }
                        } else {
                            match spec_atom(ts, r, "end"@) {
                                Err(e) => Err(e),
                                Ok(t) => Ok(
                                    (
                                        if name == "block"@ {
                                            InstView::Block(bt, first)
                                        } else if name == "loop"@ {
                                            InstView::Loop(bt, first)
                                        } else {
                                            InstView::IfElse(bt, first, Seq::empty())
                                        },
                                        t,
                                    ),
                                ),
                            }
                        },
                    }
                },
            }
        } else if name == "br"@ || name == "br_if"@ || name == "call"@ || name == "local.get"@
            || name == "local.set"@ || name == "local.tee"@ || name == "global.get"@ || name
            == "global.set"@ {
            match spec_index(ts, p) {
                Err(e) => Err(e),
                Ok((v, q)) => Ok(
                    (
                        InstView::Plain(
                            if name == "br"@ {
                                Inst::Break(LabelIdx(v))
                            } else if name == "br_if"@ {
                                Inst::BreakIf(LabelIdx(v))
                            } else if name == "call"@ {
                                Inst::Call(FuncIdx(v))
                            } else if name == "local.get"@ {
                                Inst::LocalGet(LocalIdx(v))
                            } else if name == "local.set"@ {
                                Inst::LocalSet(LocalIdx(v))
                            } else if name == "local.tee"@ {
                                Inst::LocalTee(LocalIdx(v))
                            } else if name == "global.get"@ {
                                Inst::GlobalGet(GlobalIdx(v))
                            } else {
                                Inst::GlobalSet(GlobalIdx(v))
                            },
                        ),
                        q,
                    ),
                ),
            }
        } else if name == "br_table"@ {
            match spec_indices(ts, p) {
                Err(e) => Err(e),
                Ok((ls, q)) => if ls.len() == 0 {
                    Err(ParseError::FailedExpectedToken)
                } else {
                    Ok(
                        (
                            InstView::BreakTable(
                                Seq::new((ls.len() - 1) as nat, |i: int| LabelIdx(ls[i])),
                                LabelIdx(ls.last()),
                            ),
                            q,
                        ),
                    )
                },
            }
        } else if name == "call_indirect"@ {
            match spec_open(ts, p, "type"@) {
                Err(e) => Err(e),
                Ok(q) => match spec_index(ts, q) {
                    Err(e) => Err(e),
                    Ok((t, r)) => match spec_rparen(ts, r) {
                        Err(e) => Err(e),
                        Ok(s) => Ok(
                            (InstView::Plain(Inst::CallIndirect(TypeIdx(t), TableIdx(0))), s),
                        ),
                    },
                },
            }
        } else if name == "i32.const"@ {
            match spec_number(ts, p, false) {
                Err(e) => Err(e),
                Ok((v, q)) => Ok((InstView::Plain(Inst::I32Const(v as i32)), q)),
            }
        } else if name == "i64.const"@ {
            match spec_number(ts, p, true) {
                Err(e) => Err(e),
                Ok((v, q)) => Ok((InstView::Plain(Inst::I64Const(v)), q)),
            }
        } else if name == "f32.const"@ {
            match spec_float_bits(ts, p, false) {
                Err(e) => Err(e),
                Ok((v, q)) => Ok((InstView::Plain(Inst::F32Const(v as u32)), q)),
            }
        } else if name == "f64.const"@ {
            match spec_float_bits(ts, p, true) {
                Err(e) => Err(e),
                Ok((v, q)) => Ok((InstView::Plain(Inst::F64Const(v)), q)),
            }
        } else if spec_load_name(name) is Some {
            let op = spec_load_name(name)->Some_0;
            match spec_memarg(ts, p, op.spec_width()) {
                Err(e) => Err(e),
                Ok((m, q)) => Ok((InstView::Plain(Inst::Load(op, m)), q)),
            }
        } else if spec_store_name(name) is Some {
            let op = spec_store_name(name)->Some_0;
            match spec_memarg(ts, p, op.spec_width()) {
                Err(e) => Err(e),
                Ok((m, q)) => Ok((InstView::Plain(Inst::Store(op, m)), q)),
            }
        } else {
            match spec_plain_name(name) {
                Some(i) => Ok((InstView::Plain(i), p)),
                None => Err(ParseError::UnknownInstruction),
            }
        }
    }
}

/// The instructions from `pos` on, up to a token with which no
/// instruction begins, and the position of that token.
pub open spec fn spec_instrs(ts: Seq<TokenView>, pos: int) -> Result<(Seq<InstView>, int), ParseError>
    decreases ts.len() - pos, 1nat,
{
    if !spec_starts_instr(ts, pos) {
        Ok((Seq::empty(), pos))
    } else {
        match spec_instr(ts, pos) {
            Err(e) => Err(e),
            Ok((i, q)) => if q <= pos || q > ts.len() {
                Err(ParseError::UnexpectedEot)
            } else {
                spec_instrs_after(seq![i], spec_instrs(ts, q))
            },
        }
    }
}

/// The function `(func name? typeuse local* instr*)` at `pos` and the
/// position after it.
pub open spec fn spec_func(ts: Seq<TokenView>, pos: int) -> Result<(FuncView, int), ParseError> {
    match spec_open(ts, pos, "func"@) {
        Err(e) => Err(e),
        Ok(p) => match spec_typeuse(ts, spec_skip_name(ts, p)) {
            Err(e) => Err(e),
            Ok((typ, q)) => match spec_locals(ts, q) {
                Err(e) => Err(e),
                Ok((locals, r)) => match spec_instrs(ts, r) {
                    Err(e) => Err(e),
                    Ok((body, s)) => match spec_in_context(spec_rparen(ts, s), ParseContext::Func) {
                        Err(e) => Err(e),
                        Ok(t) => Ok((FuncView { typ, locals, body }, t)),
                    },
                },
            },
        },
    }
}

/// The table `(table name? limits reftype)` at `pos` and the position
/// after it.
pub open spec fn spec_table(ts: Seq<TokenView>, pos: int) -> Result<(TableType, int), ParseError> {
    match spec_open(ts, pos, "table"@) {
        Err(e) => Err(e),
        Ok(p) => match spec_tabletype(ts, spec_skip_name(ts, p)) {
            Err(e) => Err(e),
            Ok((t, q)) => match spec_rparen(ts, q) {
                Err(e) => Err(e),
                Ok(r) => Ok((t, r)),
            },
        },
    }
}

/// The memory `(memory name? limits)` at `pos` and the position after it.
pub open spec fn spec_memory(ts: Seq<TokenView>, pos: int) -> Result<(MemType, int), ParseError> {
    match spec_open(ts, pos, "memory"@) {
        Err(e) => Err(e),
        Ok(p) => match spec_limits(ts, spec_skip_name(ts, p)) {
            Err(e) => Err(e),
            Ok((limits, q)) => match spec_rparen(ts, q) {
                Err(e) => Err(e),
                Ok(r) => Ok((MemType { limits }, r)),
            },
        },
    }
}

/// The global `(global name? globaltype instr*)` at `pos` and the
/// position after it.
pub open spec fn spec_global(ts: Seq<TokenView>, pos: int) -> Result<(GlobalView, int), ParseError> {
    match spec_open(ts, pos, "global"@) {
        Err(e) => Err(e),
        Ok(p) => match spec_globaltype(ts, spec_skip_name(ts, p)) {
            Err(e) => Err(e),
            Ok((typ, q)) => match spec_instrs(ts, q) {
                Err(e) => Err(e),
                Ok((init, r)) => match spec_rparen(ts, r) {
                    Err(e) => Err(e),
                    Ok(s) => Ok((GlobalView { typ, init }, s)),
                },
            },
        },
    }
}

/// The export `(export name (kind index))` at `pos` and the position
/// after it.
pub open spec fn spec_export(ts: Seq<TokenView>, pos: int) -> Result<(ExportView, int), ParseError> {
    match spec_open(ts, pos, "export"@) {
        Err(e) => Err(e),
        Ok(p) => match spec_name(ts, p) {
            Err(e) => Err(e),
            Ok((name, q)) => match spec_decl(ts, q) {
                Err(e) => Err(e),
                Ok(kind) => match spec_index(ts, q + 2) {
                    Err(e) => Err(e),
                    Ok((idx, r)) => match spec_rparen(ts, r) {
                        Err(e) => Err(e),
                        Ok(s) => match spec_rparen(ts, s) {
                            Err(e) => Err(e),
                            Ok(t) => if kind == "func"@ {
                                Ok((ExportView { name, desc: ExportDesc::Func(FuncIdx(idx)) }, t))
                            } else if kind == "table"@ {
                                Ok((ExportView { name, desc: ExportDesc::Table(TableIdx(idx)) }, t))
                            } else if kind == "memory"@ {
                                Ok((ExportView { name, desc: ExportDesc::Mem(MemIdx(idx)) }, t))
                            } else if kind == "global"@ {
                                Ok((ExportView { name, desc: ExportDesc::Global(GlobalIdx(idx)) }, t))
                            } else {
                                Err(ParseError::FailedExpectedToken)
                            },
                        },
                    },
                },
            },
        },
    }
}

/// The start function `(start index)` at `pos` and the position after
/// it.
pub open spec fn spec_start(ts: Seq<TokenView>, pos: int) -> Result<(FuncIdx, int), ParseError> {
    match spec_open(ts, pos, "start"@) {
        Err(e) => Err(e),
        Ok(p) => match spec_index(ts, p) {
            Err(e) => Err(e),
            Ok((idx, q)) => match spec_rparen(ts, q) {
                Err(e) => Err(e),
                Ok(r) => Ok((FuncIdx(idx), r)),
            },
        },
    }
}

/// The index of a form `(word index)` at `pos`, if it stands there, else
/// 0, and the position after it.
pub open spec fn spec_target(ts: Seq<TokenView>, pos: int, word: Seq<char>) -> Result<(u32, int), ParseError> {
    if spec_is_decl(ts, pos, word) {
        match spec_index(ts, pos + 2) {
            Err(e) => Err(e),
            Ok((idx, p)) => match spec_rparen(ts, p) {
                Err(e) => Err(e),
                Ok(q) => Ok((idx, q)),
            },
        }
    } else {
        Ok((0, pos))
    }
}

/// The offset `(offset instr*)` at `pos` and the position after it.
pub open spec fn spec_offset(ts: Seq<TokenView>, pos: int) -> Result<(Seq<InstView>, int), ParseError> {
    match spec_open(ts, pos, "offset"@) {
        Err(e) => Err(e),
        Ok(p) => match spec_instrs(ts, p) {
            Err(e) => Err(e),
            Ok((offset, q)) => match spec_rparen(ts, q) {
                Err(e) => Err(e),
                Ok(r) => Ok((offset, r)),
            },
        },
    }
}

/// The element segment `(elem (table index)? (offset instr*) func?
/// index*)` at `pos` and the position after it.
pub open spec fn spec_elem(ts: Seq<TokenView>, pos: int) -> Result<(ElemView, int), ParseError> {
    match spec_open(ts, pos, "elem"@) {
        Err(e) => Err(e),
        Ok(p) => match spec_target(ts, p, "table"@) {
            Err(e) => Err(e),
            Ok((table, q)) => match spec_offset(ts, q) {
                Err(e) => Err(e),
                Ok((offset, r)) => {
                    let s = if spec_is_atom(ts, r, "func"@) {
                        r + 1
                    } else {
                        r
                    };
                    match spec_indices(ts, s) {
                        Err(e) => Err(e),
                        Ok((init, t)) => match spec_rparen(ts, t) {
                            Err(e) => Err(e),
                            Ok(u) => Ok(
                                (
                                    ElemView {
                                        typ: Reftype::Funcref,
                                        init: Seq::new(init.len(), |i: int| FuncIdx(init[i])),
                                        mode: ElemModeView::Active { table: TableIdx(table), offset },
                                    },
                                    u,
                                ),
                            ),
                        },
                    }
                },
            },
        },
    }
}

/// The bytes of the strings from `pos` on, joined, and the position after
/// them.
pub open spec fn spec_strings(ts: Seq<TokenView>, pos: int) -> (Seq<u8>, int)
    decreases ts.len() - pos,
{
    if 0 <= pos < ts.len() && ts[pos] is Text {
        let (rest, q) = spec_strings(ts, pos + 1);
        (ts[pos]->Text_0 + rest, q)
    } else {
        (Seq::empty(), pos)
    }
}

/// The data segment `(data (memory index)? (offset instr*) string*)` at
/// `pos` and the position after it.
pub open spec fn spec_data(ts: Seq<TokenView>, pos: int) -> Result<(DataView, int), ParseError> {
    match spec_open(ts, pos, "data"@) {
        Err(e) => Err(e),
        Ok(p) => match spec_target(ts, p, "memory"@) {
            Err(e) => Err(e),
            Ok((memory, q)) => match spec_offset(ts, q) {
                Err(e) => Err(e),
                Ok((offset, r)) => {
                    let (init, s) = spec_strings(ts, r);
                    match spec_rparen(ts, s) {
                        Err(e) => Err(e),
                        Ok(t) => Ok(
                            (
                                DataView {
                                    init,
                                    mode: DatamodeView::Active { memory: MemIdx(memory), offset },
                                },
                                t,
                            ),
                        ),
                    }
                },
            },
        },
    }
}

/// The module `m` after the field at `pos` was read into it, and the
/// position after the field. The word with which the field begins says
/// what it is.
pub open spec fn spec_field_of(ts: Seq<TokenView>, pos: int, m: ModuleView) -> Result<(ModuleView, int), ParseErrorView> {
    match spec_decl(ts, pos) {
        Err(e) => Err(e.deep()),
        Ok(word) => if word == "type"@ {
            match spec_in_context(spec_type(ts, pos), ParseContext::Type) {
                Err(e) => Err(e.deep()),
                Ok((x, q)) => Ok((ModuleView { types: m.types.push(x), ..m }, q)),
            }
        } else if word == "import"@ {
            match spec_import(ts, pos) {
                Err(e) => Err(e.deep()),
                Ok((x, q)) => Ok((ModuleView { imports: m.imports.push(x), ..m }, q)),
            }
        } else if word == "func"@ {
            match spec_func(ts, pos) {
                Err(e) => Err(e.deep()),
                Ok((x, q)) => Ok((ModuleView { funcs: m.funcs.push(x), ..m }, q)),
            }
        } else if word == "table"@ {
            match spec_table(ts, pos) {
                Err(e) => Err(e.deep()),
                Ok((x, q)) => Ok((ModuleView { tables: m.tables.push(x), ..m }, q)),
            }
        } else if word == "memory"@ {
            match spec_memory(ts, pos) {
                Err(e) => Err(e.deep()),
                Ok((x, q)) => Ok((ModuleView { mems: m.mems.push(x), ..m }, q)),
            }
        } else if word == "global"@ {
            match spec_global(ts, pos) {
                Err(e) => Err(e.deep()),
                Ok((x, q)) => Ok((ModuleView { globals: m.globals.push(x), ..m }, q)),
            }
        } else if word == "export"@ {
            match spec_export(ts, pos) {
                Err(e) => Err(e.deep()),
                Ok((x, q)) => Ok((ModuleView { exports: m.exports.push(x), ..m }, q)),
            }
        } else if word == "start"@ {
            match spec_start(ts, pos) {
                Err(e) => Err(e.deep()),
                Ok((x, q)) => Ok((ModuleView { start: Some(x), ..m }, q)),
            }
        } else if word == "elem"@ {
            match spec_elem(ts, pos) {
                Err(e) => Err(e.deep()),
                Ok((x, q)) => Ok((ModuleView { elems: m.elems.push(x), ..m }, q)),
            }
        } else if word == "data"@ {
            match spec_data(ts, pos) {
                Err(e) => Err(e.deep()),
                Ok((x, q)) => Ok((ModuleView { datas: m.datas.push(x), ..m }, q)),
            }
        } else {
            Err(ParseErrorView::InvalidModulefield(word))
        },
    }
}

/// The module after the fields from `pos` on were read into `m`, up to the
/// `)` that closes the module, and the position after it.
pub open spec fn spec_fields(ts: Seq<TokenView>, pos: int, m: ModuleView) -> Result<(ModuleView, int), ParseErrorView>
    decreases ts.len() - pos,
{
    if spec_is_rparen(ts, pos) {
        Ok((m, pos + 1))
    } else {
        match spec_field_of(ts, pos, m) {
            Err(e) => Err(e),
            Ok((m2, q)) => if q <= pos || q > ts.len() {
                Err(ParseErrorView::UnexpectedEot)
            } else {
                spec_fields(ts, q, m2)
            },
        }
    }
}

/// The module `(module field*)` at `pos` and the position after it.
pub open spec fn spec_module(ts: Seq<TokenView>, pos: int) -> Result<(ModuleView, int), ParseErrorView> {
    match spec_open(ts, pos, "module"@) {
        Err(e) => Err(e.deep()),
        Ok(p) => spec_fields(ts, p, crate::parser::spec_empty_module()),
    }
}

/// The parser: the tokens and the position of the next token.
#[derive(Debug)]
pub struct Parser<'t> {
    pub tokens: &'t [Token],
    pub pos: usize,
}

impl<'t> Parser<'t> {
    /// The tokens as values.
    pub open spec fn ts(&self) -> Seq<TokenView> {
        spec_deep_tokens(self.tokens@)
    }

    /// The positions that a parser can be at.
    pub open spec fn wf(&self) -> bool {
        self.pos <= self.tokens@.len() <= usize::MAX
    }

    /// A parser at the first of the tokens.
    pub fn new(tokens: &'t [Token]) -> (p: Self)
        ensures
            p.tokens@ == tokens@,
            p.pos == 0,
            p.wf(),
    {
        let _ = tokens.len();
        Parser { tokens, pos: 0 }
    }

    /// The next token, which stays unread.
    pub fn peek_token(&self) -> (r: Option<&'t Token>)
        requires
            self.wf(),
        ensures
            match r {
                Some(t) => self.pos < self.tokens@.len() && *t == self.tokens@[self.pos as int]
                    && self.pos < usize::MAX,
                None => self.pos >= self.tokens@.len(),
            },
    {
        if self.pos < self.tokens.len() {
            Some(&self.tokens[self.pos])
        } else {
            None
        }
    }

    /// Reads the next token.
    pub fn accept_next_token(&mut self) -> (r: Option<&'t Token>)
        requires
            old(self).wf(),
        ensures
            final(self).tokens == old(self).tokens,
            final(self).wf(),
            match r {
                Some(t) => old(self).pos < old(self).tokens@.len() && *t == old(self).tokens@[old(self).pos as int] && final(self).pos == old(self).pos + 1,
                None => old(self).pos >= old(self).tokens@.len() && final(self).pos == old(self).pos,
            },
    {
        let t = self.peek_token()?;
        self.pos = self.pos + 1;
        Some(t)
    }

    /// The token at `at`, if there is one.
    fn token_at(&self, at: usize) -> (r: Option<&'t Token>)
        ensures
            match r {
                Some(t) => at < self.tokens@.len() && *t == self.tokens@[at as int] && self.ts()[at as int]
                    == t.deep() && at < usize::MAX,
                None => at >= self.tokens@.len(),
            },
    {
        if at < self.tokens.len() {
            Some(&self.tokens[at])
        } else {
            None
        }
    }

    /// Whether the token at `at` is the atom `name`.
    fn is_atom(&self, at: usize, name: &str) -> (r: bool)
        ensures
            r == spec_is_atom(self.ts(), at as int, name@),
    {
        match self.token_at(at) {
            Some(Token::Atom(s)) => str_eq(s.as_str(), name),
            _ => false,
        }
    }

    /// Whether the token at `at` is `)`.
    fn is_rparen(&self, at: usize) -> (r: bool)
        ensures
            r == spec_is_rparen(self.ts(), at as int),
    {
        match self.token_at(at) {
            Some(Token::RightParen) => true,
            _ => false,
        }
    }

    /// The word with which the form at the position begins.
    pub fn peek_decl(&self) -> (r: ParseResult<&'t String>)
        requires
            self.wf(),
        ensures
            match spec_decl(self.ts(), self.pos as int) {
                Ok(a) => r matches Ok(s) && s@ == a && self.pos + 2 <= self.tokens@.len(),
                Err(e) => r matches Err(x) && x == e,
            },
    {
        match self.token_at(self.pos) {
            None => Err(ParseError::UnexpectedEot),
            Some(Token::LeftParen) => match self.token_at(self.pos + 1) {
                None => Err(ParseError::UnexpectedEot),
                Some(Token::Atom(atom)) => Ok(atom),
                Some(_) => Err(ParseError::FailedExpectedToken),
            },
            Some(_) => Err(ParseError::FailedExpectedToken),
        }
    }

    /// Whether a form that begins with the word `name` stands at the
    /// position.
    pub fn is_decl(&self, name: &str) -> (r: bool)
        requires
            self.wf(),
        ensures
            r == spec_is_decl(self.ts(), self.pos as int, name@),
            r ==> self.pos + 2 <= self.tokens@.len(),
    {
        match self.peek_decl() {
            Ok(s) => str_eq(s.as_str(), name),
            Err(_) => false,
        }
    }

    /// Reads `(` and the word that follows it, whatever it is.
    pub fn accept_any_decl(&mut self) -> (r: Option<&'t String>)
        requires
            old(self).wf(),
        ensures
            final(self).tokens == old(self).tokens,
            final(self).wf(),
            match spec_decl(old(self).ts(), old(self).pos as int) {
                Ok(a) => r matches Some(s) && s@ == a && final(self).pos == old(self).pos + 2,
                Err(_) => r is None && final(self).pos == old(self).pos,
            },
    {
        match self.peek_decl() {
            Ok(s) => {
                self.pos = self.pos + 2;
                Some(s)
            },
            Err(_) => None,
        }
    }

    /// Reads `(` and the word that follows it, or fails.
    pub fn expect_any_decl(&mut self) -> (r: ParseResult<&'t String>)
        requires
            old(self).wf(),
        ensures
            final(self).tokens == old(self).tokens,
            final(self).wf(),
            match spec_decl(old(self).ts(), old(self).pos as int) {
                Ok(a) => r matches Ok(s) && s@ == a && final(self).pos == old(self).pos + 2,
                Err(_) => r matches Err(x) && x == ParseError::FailedExpectedToken && final(self).pos == old(self).pos,
            },
    {
        match self.accept_any_decl() {
            Some(s) => Ok(s),
            None => Err(ParseError::FailedExpectedToken),
        }
    }

    /// Reads `(` and the word `expected` if they stand next.
    pub fn accept_decl(&mut self, expected: &str) -> (r: Option<()>)
        requires
            old(self).wf(),
        ensures
            final(self).tokens == old(self).tokens,
            final(self).wf(),
            r is Some == spec_is_decl(old(self).ts(), old(self).pos as int, expected@),
            final(self).pos == if r is Some {
                old(self).pos + 2
            } else {
                old(self).pos as int
            },
    {
        if self.is_decl(expected) {
            self.pos = self.pos + 2;
            Some(())
        } else {
            None
        }
    }

    /// Reads `(` and the word `expected`, or fails.
    pub fn expect_decl(&mut self, expected: &str) -> (r: ParseResult<()>)
        requires
            old(self).wf(),
        ensures
            final(self).tokens == old(self).tokens,
            final(self).wf(),
            r is Ok == spec_is_decl(old(self).ts(), old(self).pos as int, expected@),
            r is Err ==> r == Err::<(), ParseError>(ParseError::FailedExpectedToken),
            final(self).pos == if r is Ok {
                old(self).pos + 2
            } else {
                old(self).pos as int
            },
    {
        match self.accept_decl(expected) {
            Some(()) => Ok(()),
            None => Err(ParseError::FailedExpectedToken),
        }
    }

    /// Reads an atom, whatever it is.
    pub fn accept_any_atom(&mut self) -> (r: Option<&'t String>)
        requires
            old(self).wf(),
        ensures
            final(self).tokens == old(self).tokens,
            final(self).wf(),
            match r {
                Some(s) => old(self).pos < old(self).tokens@.len() && old(self).ts()[old(self).pos as int] == TokenView::Atom(s@) && final(self).pos == old(self).pos + 1,
                None => !(old(self).pos < old(self).tokens@.len() && old(self).ts()[old(self).pos as int] is Atom) && final(self).pos == old(self).pos,
            },
    {
        match self.token_at(self.pos) {
            Some(Token::Atom(s)) => {
                self.pos = self.pos + 1;
                Some(s)
            },
            _ => None,
        }
    }

    /// Reads an atom, or fails.
    pub fn expect_any_atom(&mut self) -> (r: ParseResult<&'t String>)
        requires
            old(self).wf(),
        ensures
            final(self).tokens == old(self).tokens,
            final(self).wf(),
            match r {
                Ok(s) => old(self).pos < old(self).tokens@.len() && old(self).ts()[old(self).pos as int] == TokenView::Atom(s@) && final(self).pos == old(self).pos + 1,
                Err(e) => final(self).pos == old(self).pos && e == (if old(self).pos >= old(self).tokens@.len() {
                    ParseError::UnexpectedEot
                } else {
                    ParseError::FailedExpectedToken
                }) && !(old(self).pos < old(self).tokens@.len() && old(self).ts()[old(self).pos as int] is Atom),
            },
    {
        if self.pos >= self.tokens.len() {
            return Err(ParseError::UnexpectedEot);
        }
        match self.accept_any_atom() {
            Some(s) => Ok(s),
            None => Err(ParseError::FailedExpectedToken),
        }
    }

    /// Reads `(` if it stands next.
    pub fn accept_lparen(&mut self) -> (r: bool)
        requires
            old(self).wf(),
        ensures
            final(self).tokens == old(self).tokens,
            final(self).wf(),
            r == spec_is_lparen(old(self).ts(), old(self).pos as int),
            final(self).pos == if r {
                old(self).pos + 1
            } else {
                old(self).pos as int
            },
    {
        match self.token_at(self.pos) {
            Some(Token::LeftParen) => {
                self.pos = self.pos + 1;
                true
            },
            _ => false,
        }
    }

    /// Reads `)` if it stands next.
    pub fn accept_rparen(&mut self) -> (r: bool)
        requires
            old(self).wf(),
        ensures
            final(self).tokens == old(self).tokens,
            final(self).wf(),
            r == spec_is_rparen(old(self).ts(), old(self).pos as int),
            final(self).pos == if r {
                old(self).pos + 1
            } else {
                old(self).pos as int
            },
    {
        if self.is_rparen(self.pos) {
            self.pos = self.pos + 1;
            true
        } else {
            false
        }
    }

    /// Reads the atom `atom` if it stands next.
    pub fn accept_atom(&mut self, atom: &str) -> (r: bool)
        requires
            old(self).wf(),
        ensures
            final(self).tokens == old(self).tokens,
            final(self).wf(),
            r == spec_is_atom(old(self).ts(), old(self).pos as int, atom@),
            final(self).pos == if r {
                old(self).pos + 1
            } else {
                old(self).pos as int
            },
    {
        if self.is_atom(self.pos, atom) {
            self.pos = self.pos + 1;
            true
        } else {
            false
        }
    }

    /// Reads the atom `atom`, or fails.
    pub fn expect_atom(&mut self, atom: &str) -> (r: ParseResult<()>)
        requires
            old(self).wf(),
        ensures
            final(self).tokens == old(self).tokens,
            final(self).wf(),
            match spec_atom(old(self).ts(), old(self).pos as int, atom@) {
                Ok(next) => r is Ok && final(self).pos == next,
                Err(e) => r matches Err(x) && x == e && final(self).pos == old(self).pos,
            },
    {
        if self.accept_atom(atom) {
            Ok(())
        } else {
            Err(ParseError::FailedExpectedToken)
        }
    }

    /// Reads `(`, or fails.
    pub fn expect_lparen(&mut self) -> (r: ParseResult<()>)
        requires
            old(self).wf(),
        ensures
            final(self).tokens == old(self).tokens,
            final(self).wf(),
            match spec_lparen(old(self).ts(), old(self).pos as int) {
                Ok(next) => r is Ok && final(self).pos == next,
                Err(e) => r matches Err(x) && x == e && final(self).pos == old(self).pos,
            },
    {
        if self.accept_lparen() {
            Ok(())
        } else {
            Err(ParseError::ExpectedLparen)
        }
    }

    /// Reads `)`, or fails.
    pub fn expect_rparen(&mut self) -> (r: ParseResult<()>)
        requires
            old(self).wf(),
        ensures
            final(self).tokens == old(self).tokens,
            final(self).wf(),
            match spec_rparen(old(self).ts(), old(self).pos as int) {
                Ok(next) => r is Ok && final(self).pos == next,
                Err(e) => r matches Err(x) && x == e && final(self).pos == old(self).pos,
            },
    {
        if self.accept_rparen() {
            Ok(())
        } else {
            Err(ParseError::ExpectedRparen)
        }
    }

    /// Reads `(` and the atom `name`, or fails.
    pub fn expect_open(&mut self, name: &str) -> (r: ParseResult<()>)
        requires
            old(self).wf(),
        ensures
            final(self).tokens == old(self).tokens,
            final(self).wf(),
            final(self).pos >= old(self).pos,
            match spec_open(old(self).ts(), old(self).pos as int, name@) {
                Ok(next) => r is Ok && final(self).pos == next,
                Err(e) => r matches Err(x) && x == e,
            },
    {
        self.expect_lparen()?;
        self.expect_atom(name)
    }

    /// Reads a name if one stands next.
    pub fn accept_name(&mut self) -> (r: Option<&'t String>)
        requires
            old(self).wf(),
        ensures
            final(self).tokens == old(self).tokens,
            final(self).wf(),
            final(self).pos == spec_skip_name(old(self).ts(), old(self).pos as int),
            r is Some == (final(self).pos != old(self).pos),
    {
        match self.token_at(self.pos) {
            Some(Token::Name(s)) => {
                self.pos = self.pos + 1;
                Some(s)
            },
            _ => None,
        }
    }

    /// Reads a value type if one stands next.
    pub fn accept_valtype(&mut self) -> (r: Option<ValType>)
        requires
            old(self).wf(),
        ensures
            final(self).tokens == old(self).tokens,
            final(self).wf(),
            r == spec_valtype(old(self).ts(), old(self).pos as int),
            final(self).pos == if r is Some {
                old(self).pos + 1
            } else {
                old(self).pos as int
            },
    {
        match self.token_at(self.pos) {
            Some(Token::Atom(s)) => match valtype_name(s.as_str()) {
                Some(t) => {
                    self.pos = self.pos + 1;
                    Some(t)
                },
                None => None,
            },
            _ => None,
        }
    }

    /// Reads a value type, or fails.
    pub fn expect_valtype(&mut self) -> (r: ParseResult<ValType>)
        requires
            old(self).wf(),
        ensures
            final(self).tokens == old(self).tokens,
            final(self).wf(),
            match spec_valtype(old(self).ts(), old(self).pos as int) {
                Some(t) => r matches Ok(x) && x == t && final(self).pos == old(self).pos + 1,
                None => r matches Err(x) && x == ParseError::FailedExpectedToken && final(self).pos
                    == old(self).pos,
            },
    {
        match self.accept_valtype() {
            Some(t) => Ok(t),
            None => Err(ParseError::FailedExpectedToken),
        }
    }

    /// Reads value types as long as they stand next.
    pub fn accept_valtypes(&mut self) -> (r: Vec<ValType>)
        requires
            old(self).wf(),
        ensures
            final(self).tokens == old(self).tokens,
            final(self).wf(),
            (r@, final(self).pos as int) == spec_valtypes(old(self).ts(), old(self).pos as int),
            final(self).pos >= old(self).pos,
    {
        let mut types: Vec<ValType> = Vec::new();
        let ghost ts = self.ts();
        let ghost start = self.pos as int;
        proof {
            let (s, q) = spec_valtypes(ts, start);
            assert(Seq::<ValType>::empty() + s =~= s);
        }
        loop
            invariant
                self.wf(),
                self.tokens == old(self).tokens,
                ts == self.ts(),
                start == old(self).pos,
                start <= self.pos,
                spec_valtypes(ts, start) == (
                    types@ + spec_valtypes(ts, self.pos as int).0,
                    spec_valtypes(ts, self.pos as int).1,
                ),
            decreases self.tokens@.len() - self.pos,
        {
            let ghost acc = types@;
            match self.accept_valtype() {
                Some(t) => {
                    proof {
                        let (rest, q) = spec_valtypes(ts, self.pos as int);
                        assert(acc + (seq![t] + rest) =~= acc.push(t) + rest);
                    }
                    types.push(t);
                },
                None => {
                    proof {
                        assert(acc + Seq::<ValType>::empty() =~= acc);
                    }
                    return types;
                },
            }
        }
    }

    /// Reads a form `(word name? type*)` if one stands next.
    pub fn accept_type_list(&mut self, word: &str) -> (r: ParseResult<Option<Vec<ValType>>>)
        requires
            old(self).wf(),
        ensures
            final(self).tokens == old(self).tokens,
            final(self).wf(),
            final(self).pos >= old(self).pos,
            match spec_type_list(old(self).ts(), old(self).pos as int, word@) {
                Ok(Some((types, next))) => r matches Ok(Some(v)) && v@ == types && final(self).pos
                    == next && next > old(self).pos,
                Ok(None) => r matches Ok(None) && final(self).pos == old(self).pos,
                Err(e) => r matches Err(x) && x == e,
            },
    {
        if !self.is_decl(word) {
            return Ok(None);
        }
        self.pos = self.pos + 2;
        let _ = self.accept_name();
        let types = self.accept_valtypes();
        self.expect_rparen()?;
        Ok(Some(types))
    }

    /// Reads a form `(param type*)` if one stands next.
    pub fn accept_param(&mut self) -> (r: ParseResult<Option<Vec<ValType>>>)
        requires
            old(self).wf(),
        ensures
            final(self).tokens == old(self).tokens,
            final(self).wf(),
            match spec_type_list(old(self).ts(), old(self).pos as int, "param"@) {
                Ok(Some((types, next))) => r matches Ok(Some(v)) && v@ == types && final(self).pos
                    == next,
                Ok(None) => r matches Ok(None) && final(self).pos == old(self).pos,
                Err(e) => r matches Err(x) && x == e,
            },
    {
        self.accept_type_list("param")
    }

    /// Reads a form `(result type*)` if one stands next.
    pub fn accept_result(&mut self) -> (r: ParseResult<Option<Vec<ValType>>>)
        requires
            old(self).wf(),
        ensures
            final(self).tokens == old(self).tokens,
            final(self).wf(),
            match spec_type_list(old(self).ts(), old(self).pos as int, "result"@) {
                Ok(Some((types, next))) => r matches Ok(Some(v)) && v@ == types && final(self).pos
                    == next,
                Ok(None) => r matches Ok(None) && final(self).pos == old(self).pos,
                Err(e) => r matches Err(x) && x == e,
            },
    {
        self.accept_type_list("result")
    }

    /// Reads forms `(word type*)` as long as they stand next, and joins
    /// their types.
    pub fn accept_type_lists(&mut self, word: &str) -> (r: ParseResult<Vec<ValType>>)
        requires
            old(self).wf(),
        ensures
            final(self).tokens == old(self).tokens,
            final(self).wf(),
            final(self).pos >= old(self).pos,
            match spec_type_lists(old(self).ts(), old(self).pos as int, word@) {
                Ok((types, next)) => r matches Ok(v) && v@ == types && final(self).pos == next,
                Err(e) => r matches Err(x) && x == e,
            },
    {
        let mut types: Vec<ValType> = Vec::new();
        let ghost ts = self.ts();
        let ghost start = self.pos as int;
        proof {
            if let Ok((s, q)) = spec_type_lists(ts, start, word@) {
                assert(Seq::<ValType>::empty() + s =~= s);
            }
        }
        loop
            invariant
                self.wf(),
                self.tokens == old(self).tokens,
                ts == self.ts(),
                start == old(self).pos,
                start <= self.pos,
                spec_type_lists(ts, start, word@) == (match spec_type_lists(
                    ts,
                    self.pos as int,
                    word@,
                ) {
                    Ok((s, q)) => Ok::<(Seq<ValType>, int), ParseError>((types@ + s, q)),
                    Err(e) => Err::<(Seq<ValType>, int), ParseError>(e),
                }),
            decreases self.tokens@.len() - self.pos,
        {
            let ghost acc = types@;
            match self.accept_type_list(word)? {
                Some(mut more) => {
                    proof {
                        if let Ok((rest, q)) = spec_type_lists(ts, self.pos as int, word@) {
                            assert(acc + (more@ + rest) =~= (acc + more@) + rest);
                        }
                    }
                    types.append(&mut more);
                },
                None => {
                    proof {
                        assert(acc + Seq::<ValType>::empty() =~= acc);
                    }
                    return Ok(types);
                },
            }
        }
    }

    /// Reads the parameters of a function type.
    pub fn accept_params(&mut self) -> (r: ParseResult<ResultType>)
        requires
            old(self).wf(),
        ensures
            final(self).tokens == old(self).tokens,
            final(self).wf(),
            final(self).pos >= old(self).pos,
            match spec_type_lists(old(self).ts(), old(self).pos as int, "param"@) {
                Ok((types, next)) => r matches Ok(v) && v@ == types && final(self).pos == next,
                Err(e) => r matches Err(x) && x == e,
            },
    {
        let types = self.accept_type_lists("param")?;
        Ok(ResultType { types })
    }

    /// Reads the results of a function type.
    pub fn accept_results(&mut self) -> (r: ParseResult<ResultType>)
        requires
            old(self).wf(),
        ensures
            final(self).tokens == old(self).tokens,
            final(self).wf(),
            final(self).pos >= old(self).pos,
            match spec_type_lists(old(self).ts(), old(self).pos as int, "result"@) {
                Ok((types, next)) => r matches Ok(v) && v@ == types && final(self).pos == next,
                Err(e) => r matches Err(x) && x == e,
            },
    {
        let types = self.accept_type_lists("result")?;
        Ok(ResultType { types })
    }

    /// Reads a function type.
    pub fn expect_functype(&mut self) -> (r: ParseResult<FuncType>)
        requires
            old(self).wf(),
        ensures
            final(self).tokens == old(self).tokens,
            final(self).wf(),
            final(self).pos >= old(self).pos,
            match spec_functype(old(self).ts(), old(self).pos as int) {
                Ok((v, next)) => r matches Ok(x) && x@ == v && final(self).pos == next,
                Err(e) => r matches Err(x) && x == e,
            },
    {
        self.expect_open("func")?;
        let params = match self.accept_params() {
            Ok(p) => p,
            Err(e) => {
                return Err(e.context(ParseContext::Params));
            },
        };
        let result = match self.accept_results() {
            Ok(p) => p,
            Err(e) => {
                return Err(e.context(ParseContext::Result));
            },
        };
        self.expect_rparen()?;
        Ok(FuncType { from: params, to: result })
    }

    /// Reads a type definition.
    pub fn expect_type(&mut self, ctx: &mut IdentifierContext) -> (r: ParseResult<FuncType>)
        requires
            old(self).wf(),
        ensures
            final(self).tokens == old(self).tokens,
            final(self).wf(),
            final(self).pos >= old(self).pos,
            match spec_type(old(self).ts(), old(self).pos as int) {
                Ok((v, next)) => r matches Ok(x) && x@ == v && final(self).pos == next,
                Err(e) => r matches Err(x) && x == e,
            },
    {
        self.expect_open("type")?;
        if let Some(name) = self.accept_name() {
            ctx.register_func(name.as_str())?;
        }
        let ft = match self.expect_functype() {
            Ok(ft) => ft,
            Err(e) => {
                return Err(e.context(ParseContext::FuncType));
            },
        };
        self.expect_rparen()?;
        Ok(ft)
    }

    /// Reads a number that fits in 32 bits.
    pub fn expect_index(&mut self) -> (r: ParseResult<u32>)
        requires
            old(self).wf(),
        ensures
            final(self).tokens == old(self).tokens,
            final(self).wf(),
            match spec_index(old(self).ts(), old(self).pos as int) {
                Ok((v, next)) => r matches Ok(x) && x == v && final(self).pos == next && next
                    == old(self).pos + 1,
                Err(e) => r matches Err(x) && x == e && final(self).pos == old(self).pos,
            },
    {
        match self.token_at(self.pos) {
            None => Err(ParseError::UnexpectedEot),
            Some(Token::Nat(n)) => {
                if *n <= u32::MAX as u64 {
                    self.pos = self.pos + 1;
                    Ok(*n as u32)
                } else {
                    Err(ParseError::NumberOutOfRange)
                }
            },
            Some(_) => Err(ParseError::FailedExpectedToken),
        }
    }

    /// Reads a type index.
    pub fn expect_typeidx(&mut self) -> (r: ParseResult<TypeIdx>)
        requires
            old(self).wf(),
        ensures
            final(self).tokens == old(self).tokens,
            final(self).wf(),
            match spec_index(old(self).ts(), old(self).pos as int) {
                Ok((v, next)) => r matches Ok(x) && x == TypeIdx(v) && final(self).pos == next,
                Err(e) => r matches Err(x) && x == e && final(self).pos == old(self).pos,
            },
    {
        let n = self.expect_index()?;
        Ok(TypeIdx(n))
    }

    /// Reads the parameters that follow the use of a type.
    pub fn expect_params(&mut self) -> (r: ParseResult<Vec<ValType>>)
        requires
            old(self).wf(),
        ensures
            final(self).tokens == old(self).tokens,
            final(self).wf(),
            final(self).pos >= old(self).pos,
            match spec_type_lists(old(self).ts(), old(self).pos as int, "param"@) {
                Ok((types, next)) => r matches Ok(v) && v@ == types && final(self).pos == next,
                Err(e) => r matches Err(x) && x == e,
            },
    {
        self.accept_type_lists("param")
    }

    /// Reads the results that follow the use of a type.
    pub fn expect_results(&mut self) -> (r: ParseResult<Vec<ValType>>)
        requires
            old(self).wf(),
        ensures
            final(self).tokens == old(self).tokens,
            final(self).wf(),
            final(self).pos >= old(self).pos,
            match spec_type_lists(old(self).ts(), old(self).pos as int, "result"@) {
                Ok((types, next)) => r matches Ok(v) && v@ == types && final(self).pos == next,
                Err(e) => r matches Err(x) && x == e,
            },
    {
        self.accept_type_lists("result")
    }

    /// Reads the use of a type.
    pub fn expect_typeuse(&mut self) -> (r: ParseResult<TypeIdx>)
        requires
            old(self).wf(),
        ensures
            final(self).tokens == old(self).tokens,
            final(self).wf(),
            final(self).pos >= old(self).pos,
            match spec_typeuse(old(self).ts(), old(self).pos as int) {
                Ok((v, next)) => r matches Ok(x) && x == v && final(self).pos == next,
                Err(e) => r matches Err(x) && x == e,
            },
    {
        self.expect_open("type")?;
        let typidx = self.expect_typeidx()?;
        self.expect_rparen()?;
        let _ = self.expect_params()?;
        let _ = self.expect_results()?;
        Ok(typidx)
    }

    /// Reads a string.
    pub fn expect_text(&mut self) -> (r: ParseResult<&'t TextToken>)
        requires
            old(self).wf(),
        ensures
            final(self).tokens == old(self).tokens,
            final(self).wf(),
            final(self).pos >= old(self).pos,
            match spec_string(old(self).ts(), old(self).pos as int) {
                Ok((v, next)) => r matches Ok(x) && x.0@ == v && final(self).pos == next,
                Err(e) => r matches Err(x) && x == e && final(self).pos == old(self).pos,
            },
    {
        match self.token_at(self.pos) {
            None => Err(ParseError::UnexpectedEot),
            Some(Token::Text(t)) => {
                self.pos = self.pos + 1;
                Ok(t)
            },
            Some(_) => Err(ParseError::FailedExpectedToken),
        }
    }

    /// Reads a string that spells a name.
    pub fn expect_name(&mut self) -> (r: ParseResult<String>)
        requires
            old(self).wf(),
        ensures
            final(self).tokens == old(self).tokens,
            final(self).wf(),
            final(self).pos >= old(self).pos,
            match spec_name(old(self).ts(), old(self).pos as int) {
                Ok((v, next)) => r matches Ok(x) && x@ == v && final(self).pos == next,
                Err(e) => r matches Err(x) && x == e,
            },
    {
        let text = self.expect_text()?;
        let mut bytes: Vec<u8> = Vec::new();
        let mut i: usize = 0;
        while i < text.0.len()
            invariant
                i <= text.0@.len(),
                bytes@ == text.0@.take(i as int),
            decreases text.0@.len() - i,
        {
            bytes.push(text.0[i]);
            i = i + 1;
            assert(bytes@ =~= text.0@.take(i as int));
        }
        assert(text.0@.take(i as int) =~= text.0@);
        match string_from_utf8(bytes) {
            Some(s) => Ok(s),
            None => Err(ParseError::InvalidUtf8),
        }
    }

    /// Reads limits.
    pub fn expect_limits(&mut self) -> (r: ParseResult<Limits>)
        requires
            old(self).wf(),
        ensures
            final(self).tokens == old(self).tokens,
            final(self).wf(),
            final(self).pos >= old(self).pos,
            match spec_limits(old(self).ts(), old(self).pos as int) {
                Ok((v, next)) => r matches Ok(x) && x == v && final(self).pos == next,
                Err(e) => r matches Err(x) && x == e,
            },
    {
        let min = self.expect_index()?;
        match self.token_at(self.pos) {
            Some(Token::Nat(_)) => {
                let max = self.expect_index()?;
                Ok(Limits { min, max: Some(max) })
            },
            _ => Ok(Limits { min, max: None }),
        }
    }

    /// Reads a reference type.
    pub fn expect_reftype(&mut self) -> (r: ParseResult<Reftype>)
        requires
            old(self).wf(),
        ensures
            final(self).tokens == old(self).tokens,
            final(self).wf(),
            final(self).pos >= old(self).pos,
            match spec_reftype(old(self).ts(), old(self).pos as int) {
                Ok((v, next)) => r matches Ok(x) && x == v && final(self).pos == next,
                Err(e) => r matches Err(x) && x == e,
            },
    {
        let start: usize = self.pos;
        match self.accept_valtype() {
            Some(ValType::FuncRef) => Ok(Reftype::Funcref),
            Some(ValType::ExternRef) => Ok(Reftype::Externref),
            _ => {
                self.pos = start;
                Err(ParseError::FailedExpectedToken)
            },
        }
    }

    /// Reads a table type.
    pub fn expect_tabletype(&mut self) -> (r: ParseResult<TableType>)
        requires
            old(self).wf(),
        ensures
            final(self).tokens == old(self).tokens,
            final(self).wf(),
            final(self).pos >= old(self).pos,
            match spec_tabletype(old(self).ts(), old(self).pos as int) {
                Ok((v, next)) => r matches Ok(x) && x == v && final(self).pos == next,
                Err(e) => r matches Err(x) && x == e,
            },
    {
        let limits = self.expect_limits()?;
        let reftype = self.expect_reftype()?;
        Ok(TableType { reftype, limits })
    }

    /// Reads a global type.
    pub fn expect_globaltype(&mut self) -> (r: ParseResult<GlobalType>)
        requires
            old(self).wf(),
        ensures
            final(self).tokens == old(self).tokens,
            final(self).wf(),
            final(self).pos >= old(self).pos,
            match spec_globaltype(old(self).ts(), old(self).pos as int) {
                Ok((v, next)) => r matches Ok(x) && x == v && final(self).pos == next,
                Err(e) => r matches Err(x) && x == e,
            },
    {
        if self.is_decl("mut") {
            self.pos = self.pos + 2;
            let t = self.expect_valtype()?;
            self.expect_rparen()?;
            Ok(GlobalType { mutable: true, t })
        } else {
            let t = self.expect_valtype()?;
            Ok(GlobalType { mutable: false, t })
        }
    }

    /// Reads the description of an imported function.
    pub fn expect_importdesc_func(&mut self, ctx: &mut IdentifierContext) -> (r: ParseResult<
        ImportDesc,
    >)
        requires
            old(self).wf(),
        ensures
            final(self).tokens == old(self).tokens,
            final(self).wf(),
            final(self).pos >= old(self).pos,
            match spec_importdesc_func(old(self).ts(), old(self).pos as int) {
                Ok((v, next)) => r matches Ok(x) && x == v && final(self).pos == next,
                Err(e) => r matches Err(x) && x == e,
            },
    {
        self.expect_open("func")?;
        let _ = self.accept_name();
        let typ = self.expect_typeuse()?;
        self.expect_rparen()?;
        Ok(ImportDesc::Func(typ))
    }

    /// Reads what an import describes.
    pub fn expect_importdesc(&mut self, ctx: &mut IdentifierContext) -> (r: ParseResult<ImportDesc>)
        requires
            old(self).wf(),
        ensures
            final(self).tokens == old(self).tokens,
            final(self).wf(),
            final(self).pos >= old(self).pos,
            match spec_importdesc(old(self).ts(), old(self).pos as int) {
                Ok((v, next)) => r matches Ok(x) && x == v && final(self).pos == next,
                Err(e) => r matches Err(x) && x == e,
            },
    {
        let decl = self.peek_decl()?;
        if str_eq(decl.as_str(), "func") {
            self.expect_importdesc_func(ctx)
        } else if str_eq(decl.as_str(), "table") {
            self.pos = self.pos + 2;
            let _ = self.accept_name();
            let t = self.expect_tabletype()?;
            self.expect_rparen()?;
            Ok(ImportDesc::Table(t))
        } else if str_eq(decl.as_str(), "memory") {
            self.pos = self.pos + 2;
            let _ = self.accept_name();
            let limits = self.expect_limits()?;
            self.expect_rparen()?;
            Ok(ImportDesc::Mem(MemType { limits }))
        } else if str_eq(decl.as_str(), "global") {
            self.pos = self.pos + 2;
            let _ = self.accept_name();
            let t = self.expect_globaltype()?;
            self.expect_rparen()?;
            Ok(ImportDesc::Global(t))
        } else {
            Err(ParseError::UnexpectedImport)
        }
    }

    /// Reads an import.
    pub fn expect_import(&mut self, ctx: &mut IdentifierContext) -> (r: ParseResult<Import>)
        requires
            old(self).wf(),
        ensures
            final(self).tokens == old(self).tokens,
            final(self).wf(),
            final(self).pos >= old(self).pos,
            match spec_import(old(self).ts(), old(self).pos as int) {
                Ok((v, next)) => r matches Ok(x) && x.deep() == v && final(self).pos == next,
                Err(e) => r matches Err(x) && x == e,
            },
    {
        self.expect_open("import")?;
        let modname = self.expect_name()?;
        let nm = self.expect_name()?;
        let desc = self.expect_importdesc(ctx)?;
        self.expect_rparen()?;
        Ok(Import { module: modname, nm, desc })
    }

    /// The declarations of locals for a list of types: one local of each.
    fn locals_of(types: &Vec<ValType>) -> (r: Vec<Locals>)
        ensures
            r@ == Seq::new(types@.len(), |i: int| Locals { n: 1, t: types@[i] }),
    {
        let mut out: Vec<Locals> = Vec::new();
        let mut i: usize = 0;
        while i < types.len()
            invariant
                i <= types@.len(),
                out@ == Seq::new(i as nat, |j: int| Locals { n: 1, t: types@[j] }),
            decreases types@.len() - i,
        {
            out.push(Locals { n: 1, t: types[i] });
            i = i + 1;
            assert(out@ =~= Seq::new(i as nat, |j: int| Locals { n: 1, t: types@[j] }));
        }
        out
    }

    /// Reads a form `(local type*)` if one stands next.
    pub fn accept_local(&mut self) -> (r: ParseResult<Option<Vec<Locals>>>)
        requires
            old(self).wf(),
        ensures
            final(self).tokens == old(self).tokens,
            final(self).wf(),
            final(self).pos >= old(self).pos,
            match spec_local(old(self).ts(), old(self).pos as int) {
                Ok(Some((v, next))) => r matches Ok(Some(x)) && x@ == v && final(self).pos == next,
                Ok(None) => r matches Ok(None) && final(self).pos == old(self).pos,
                Err(e) => r matches Err(x) && x == e,
            },
    {
        match self.accept_type_list("local")? {
            Some(types) => Ok(Some(Self::locals_of(&types))),
            None => Ok(None),
        }
    }

    /// Reads the declarations of locals of a function.
    pub fn expect_locals(&mut self) -> (r: ParseResult<Vec<Locals>>)
        requires
            old(self).wf(),
        ensures
            final(self).tokens == old(self).tokens,
            final(self).wf(),
            final(self).pos >= old(self).pos,
            match spec_locals(old(self).ts(), old(self).pos as int) {
                Ok((v, next)) => r matches Ok(x) && x@ == v && final(self).pos == next,
                Err(e) => r matches Err(x) && x == e,
            },
    {
        let types = self.accept_type_lists("local")?;
        Ok(Self::locals_of(&types))
    }
}

/// The base-2 logarithm of an alignment in bytes.
pub fn log2(bytes: u32) -> (r: Option<u32>)
    ensures
        r == spec_log2(bytes),
{
    if bytes == 1 {
        Some(0)
    } else if bytes == 2 {
        Some(1)
    } else if bytes == 4 {
        Some(2)
    } else if bytes == 8 {
        Some(3)
    } else {
        None
    }
}

impl<'t> Parser<'t> {
    /// Reads a number of 32 or 64 bits, signed or unsigned.
    pub fn expect_number(&mut self, wide: bool) -> (r: ParseResult<i64>)
        requires
            old(self).wf(),
        ensures
            final(self).tokens == old(self).tokens,
            final(self).wf(),
            final(self).pos >= old(self).pos,
            match spec_number(old(self).ts(), old(self).pos as int, wide) {
                Ok((v, next)) => r matches Ok(x) && x == v && final(self).pos == next && (!wide
                    ==> i32::MIN <= v <= i32::MAX),
                Err(e) => r matches Err(x) && x == e,
            },
    {
        match self.token_at(self.pos) {
            None => Err(ParseError::UnexpectedEot),
            Some(Token::Nat(n)) => {
                if wide {
                    self.pos = self.pos + 1;
                    Ok(i64_of(*n))
                } else if *n <= u32::MAX as u64 {
                    self.pos = self.pos + 1;
                    Ok(i32_of(*n as u32) as i64)
                } else {
                    Err(ParseError::NumberOutOfRange)
                }
            },
            Some(Token::Int(i)) => {
                if wide {
                    self.pos = self.pos + 1;
                    Ok(*i)
                } else if i32::MIN as i64 <= *i && *i <= u32::MAX as i64 {
                    self.pos = self.pos + 1;
                    if *i >= 0 {
                        Ok(i32_of(*i as u32) as i64)
                    } else {
                        Ok(*i)
                    }
                } else {
                    Err(ParseError::NumberOutOfRange)
                }
            },
            Some(_) => Err(ParseError::FailedExpectedToken),
        }
    }

    /// Reads a floating-point literal as bits.
    pub fn expect_float_bits(&mut self, wide: bool) -> (r: ParseResult<u64>)
        requires
            old(self).wf(),
        ensures
            final(self).tokens == old(self).tokens,
            final(self).wf(),
            final(self).pos >= old(self).pos,
            match spec_float_bits(old(self).ts(), old(self).pos as int, wide) {
                Ok((v, next)) => r matches Ok(x) && x == v && final(self).pos == next && (!wide
                    ==> v <= u32::MAX),
                Err(e) => r matches Err(x) && x == e,
            },
    {
        match self.token_at(self.pos) {
            None => Err(ParseError::UnexpectedEot),
            Some(Token::Float(text)) => {
                let t = text.as_str();
                let bits: u64 = if str_eq(t, "inf") || str_eq(t, "+inf") {
                    if wide { 0x7FF0_0000_0000_0000 } else { 0x7F80_0000 }
                } else if str_eq(t, "-inf") {
                    if wide { 0xFFF0_0000_0000_0000 } else { 0xFF80_0000 }
                } else if str_eq(t, "nan") || str_eq(t, "+nan") {
                    if wide { 0x7FF8_0000_0000_0000 } else { 0x7FC0_0000 }
                } else if str_eq(t, "-nan") {
                    if wide { 0xFFF8_0000_0000_0000 } else { 0xFFC0_0000 }
                } else {
                    return Err(ParseError::UnsupportedFloat);
                };
                self.pos = self.pos + 1;
                Ok(bits)
            },
            Some(Token::Atom(text)) => {
                let t = text.as_str();
                let bits: u64 = if str_eq(t, "inf") {
                    if wide { 0x7FF0_0000_0000_0000 } else { 0x7F80_0000 }
                } else if str_eq(t, "nan") {
                    if wide { 0x7FF8_0000_0000_0000 } else { 0x7FC0_0000 }
                } else {
                    return Err(ParseError::FailedExpectedToken);
                };
                self.pos = self.pos + 1;
                Ok(bits)
            },
            Some(Token::Nat(n)) => {
                if *n == 0 {
                    self.pos = self.pos + 1;
                    Ok(0)
                } else {
                    Err(ParseError::UnsupportedFloat)
                }
            },
            Some(_) => Err(ParseError::FailedExpectedToken),
        }
    }

    /// Reads a field `word=number` if one stands next.
    pub fn accept_field(&mut self, word: &str) -> (r: ParseResult<Option<u32>>)
        requires
            old(self).wf(),
        ensures
            final(self).tokens == old(self).tokens,
            final(self).wf(),
            final(self).pos >= old(self).pos,
            match spec_field(old(self).ts(), old(self).pos as int, word@) {
                Ok(Some((v, next))) => r matches Ok(Some(x)) && x == v && final(self).pos == next,
                Ok(None) => r matches Ok(None) && final(self).pos == old(self).pos,
                Err(e) => r matches Err(x) && x == e,
            },
    {
        if !self.is_atom(self.pos, word) {
            return Ok(None);
        }
        match self.token_at(self.pos + 1) {
            Some(Token::Equal) => {
                self.pos = self.pos + 2;
                let v = self.expect_index()?;
                Ok(Some(v))
            },
            _ => Ok(None),
        }
    }

    /// Reads the immediate of a load or store of `width` bytes.
    pub fn expect_memarg(&mut self, width: u64) -> (r: ParseResult<MemArg>)
        requires
            old(self).wf(),
            width <= 8,
        ensures
            final(self).tokens == old(self).tokens,
            final(self).wf(),
            final(self).pos >= old(self).pos,
            match spec_memarg(old(self).ts(), old(self).pos as int, width) {
                Ok((v, next)) => r matches Ok(x) && x == v && final(self).pos == next,
                Err(e) => r matches Err(x) && x == e,
            },
    {
        let offset = self.accept_field("offset")?;
        let align = self.accept_field("align")?;
        let bytes: u32 = match align {
            Some(a) => a,
            None => width as u32,
        };
        match log2(bytes) {
            None => Err(ParseError::NumberOutOfRange),
            Some(log) => Ok(
                MemArg {
                    align: log,
                    offset: match offset {
                        Some(o) => o,
                        None => 0,
                    },
                },
            ),
        }
    }

    /// Reads a block type.
    pub fn expect_blocktype(&mut self) -> (r: ParseResult<BlockType>)
        requires
            old(self).wf(),
        ensures
            final(self).tokens == old(self).tokens,
            final(self).wf(),
            final(self).pos >= old(self).pos,
            match spec_blocktype(old(self).ts(), old(self).pos as int) {
                Ok((v, next)) => r matches Ok(x) && x == v && final(self).pos == next,
                Err(e) => r matches Err(x) && x == e,
            },
    {
        if self.is_decl("result") {
            self.pos = self.pos + 2;
            let t = self.expect_valtype()?;
            self.expect_rparen()?;
            Ok(BlockType::Inline(t))
        } else if self.is_decl("type") {
            self.pos = self.pos + 2;
            let idx = self.expect_index()?;
            self.expect_rparen()?;
            Ok(BlockType::Type(TypeIdx(idx)))
        } else {
            Ok(BlockType::Empty)
        }
    }

    /// Reads numbers as long as they stand next.
    pub fn accept_indices(&mut self) -> (r: ParseResult<Vec<u32>>)
        requires
            old(self).wf(),
        ensures
            final(self).tokens == old(self).tokens,
            final(self).wf(),
            final(self).pos >= old(self).pos,
            match spec_indices(old(self).ts(), old(self).pos as int) {
                Ok((v, next)) => r matches Ok(x) && x@ == v && final(self).pos == next,
                Err(e) => r matches Err(x) && x == e,
            },
    {
        let mut out: Vec<u32> = Vec::new();
        let ghost ts = self.ts();
        let ghost start = self.pos as int;
        proof {
            if let Ok((s, q)) = spec_indices(ts, start) {
                assert(Seq::<u32>::empty() + s =~= s);
            }
        }
        loop
            invariant
                self.wf(),
                self.tokens == old(self).tokens,
                ts == self.ts(),
                start == old(self).pos,
                start <= self.pos,
                spec_indices(ts, start) == (match spec_indices(ts, self.pos as int) {
                    Ok((s, q)) => Ok::<(Seq<u32>, int), ParseError>((out@ + s, q)),
                    Err(e) => Err::<(Seq<u32>, int), ParseError>(e),
                }),
            decreases self.tokens@.len() - self.pos,
        {
            let ghost acc = out@;
            match self.token_at(self.pos) {
                Some(Token::Nat(_)) => {
                    let v = self.expect_index()?;
                    proof {
                        if let Ok((rest, q)) = spec_indices(ts, self.pos as int) {
                            assert(acc + (seq![v] + rest) =~= acc.push(v) + rest);
                        }
                    }
                    out.push(v);
                },
                _ => {
                    proof {
                        assert(acc + Seq::<u32>::empty() =~= acc);
                    }
                    return Ok(out);
                },
            }
        }
    }

    /// Whether an instruction begins at the position.
    pub fn starts_instr(&self) -> (r: bool)
        requires
            self.wf(),
        ensures
            r == spec_starts_instr(self.ts(), self.pos as int),
    {
        match self.token_at(self.pos) {
            Some(Token::Atom(s)) => !str_eq(s.as_str(), "end") && !str_eq(s.as_str(), "else"),
            _ => false,
        }
    }

    /// Reads one instruction.
    pub fn expect_instr(&mut self) -> (r: ParseResult<Inst>)
        requires
            old(self).wf(),
        ensures
            final(self).tokens == old(self).tokens,
            final(self).wf(),
            final(self).pos >= old(self).pos,
            match spec_instr(old(self).ts(), old(self).pos as int) {
                Ok((v, next)) => r matches Ok(x) && x.deep() == v && final(self).pos == next && next
                    > old(self).pos,
                Err(e) => r matches Err(x) && x == e,
            },
        decreases old(self).tokens@.len() - old(self).pos, 0nat,
    {
        if !self.starts_instr() {
            return Err(ParseError::FailedExpectedToken);
        }
        let atom = match self.accept_any_atom() {
            Some(a) => a,
            None => {
                return Err(ParseError::FailedExpectedToken);
            },
        };
        let name = atom.as_str();
        let block = str_eq(name, "block");
        let repeat = str_eq(name, "loop");
        let cond = str_eq(name, "if");
        if block || repeat || cond {
            let bt = self.expect_blocktype()?;
            let first = self.expect_expr()?;
            if cond && self.accept_atom("else") {
                let second = self.expect_expr()?;
                self.expect_atom("end")?;
                let inst = Inst::IfElse(bt, Expr { instructions: first }, Expr { instructions: second });
                proof {
                    lemma_deep_nested(inst);
                }
                return Ok(inst);
            }
            self.expect_atom("end")?;
            let inst = if block {
                Inst::Block(bt, Expr { instructions: first })
            } else if repeat {
                Inst::Loop(bt, Expr { instructions: first })
            } else {
                Inst::IfElse(bt, Expr { instructions: first }, Expr { instructions: Vec::new() })
            };
            proof {
                lemma_deep_nested(inst);
                if !block && !repeat {
                    assert(spec_deep(inst->IfElse_2.instructions@) =~= Seq::<InstView>::empty());
                }
            }
            Ok(inst)
        } else if str_eq(name, "br") {
            Ok(Inst::Break(LabelIdx(self.expect_index()?)))
        } else if str_eq(name, "br_if") {
            Ok(Inst::BreakIf(LabelIdx(self.expect_index()?)))
        } else if str_eq(name, "call") {
            Ok(Inst::Call(FuncIdx(self.expect_index()?)))
        } else if str_eq(name, "local.get") {
            Ok(Inst::LocalGet(LocalIdx(self.expect_index()?)))
        } else if str_eq(name, "local.set") {
            Ok(Inst::LocalSet(LocalIdx(self.expect_index()?)))
        } else if str_eq(name, "local.tee") {
            Ok(Inst::LocalTee(LocalIdx(self.expect_index()?)))
        } else if str_eq(name, "global.get") {
            Ok(Inst::GlobalGet(GlobalIdx(self.expect_index()?)))
        } else if str_eq(name, "global.set") {
            Ok(Inst::GlobalSet(GlobalIdx(self.expect_index()?)))
        } else if str_eq(name, "br_table") {
            let all = self.accept_indices()?;
            if all.len() == 0 {
                return Err(ParseError::FailedExpectedToken);
            }
            let mut labels: Vec<LabelIdx> = Vec::new();
            let mut i: usize = 0;
            while i < all.len() - 1
                invariant
                    all@.len() >= 1,
                    i <= all@.len() - 1,
                    labels@ == Seq::new(i as nat, |j: int| LabelIdx(all@[j])),
                decreases all@.len() - 1 - i,
            {
                labels.push(LabelIdx(all[i]));
                i = i + 1;
                assert(labels@ =~= Seq::new(i as nat, |j: int| LabelIdx(all@[j])));
            }
            Ok(Inst::BreakTable(labels, LabelIdx(all[all.len() - 1])))
        } else if str_eq(name, "call_indirect") {
            self.expect_open("type")?;
            let t = self.expect_index()?;
            self.expect_rparen()?;
            Ok(Inst::CallIndirect(TypeIdx(t), TableIdx(0)))
        } else if str_eq(name, "i32.const") {
            let v = self.expect_number(false)?;
            Ok(Inst::I32Const(v as i32))
        } else if str_eq(name, "i64.const") {
            Ok(Inst::I64Const(self.expect_number(true)?))
        } else if str_eq(name, "f32.const") {
            let v = self.expect_float_bits(false)?;
            Ok(Inst::F32Const(v as u32))
        } else if str_eq(name, "f64.const") {
            Ok(Inst::F64Const(self.expect_float_bits(true)?))
        } else if let Some(op) = load_name(name) {
            Ok(Inst::Load(op, self.expect_memarg(op.width())?))
        } else if let Some(op) = store_name(name) {
            Ok(Inst::Store(op, self.expect_memarg(op.width())?))
        } else {
            match plain_name(name) {
                Some(i) => Ok(i),
                None => Err(ParseError::UnknownInstruction),
            }
        }
    }

    /// Reads instructions as long as they stand next.
    pub fn expect_expr(&mut self) -> (r: ParseResult<Vec<Inst>>)
        requires
            old(self).wf(),
        ensures
            final(self).tokens == old(self).tokens,
            final(self).wf(),
            final(self).pos >= old(self).pos,
            match spec_instrs(old(self).ts(), old(self).pos as int) {
                Ok((v, next)) => r matches Ok(x) && spec_deep(x@) == v && final(self).pos == next,
                Err(e) => r matches Err(x) && x == e,
            },
        decreases old(self).tokens@.len() - old(self).pos, 1nat,
    {
        let mut instrs: Vec<Inst> = Vec::new();
        let ghost ts = self.ts();
        let ghost start = self.pos as int;
        proof {
            assert(spec_deep(instrs@) =~= Seq::<InstView>::empty());
            if let Ok((s, q)) = spec_instrs(ts, start) {
                assert(Seq::<InstView>::empty() + s =~= s);
            }
        }
        loop
            invariant
                self.wf(),
                self.tokens == old(self).tokens,
                ts == self.ts(),
                start == old(self).pos,
                start <= self.pos,
                spec_instrs(ts, start) == spec_instrs_after(
                    spec_deep(instrs@),
                    spec_instrs(ts, self.pos as int),
                ),
            decreases self.tokens@.len() - self.pos,
        {
            let ghost acc = spec_deep(instrs@);
            if !self.starts_instr() {
                proof {
                    assert(acc + Seq::<InstView>::empty() =~= acc);
                }
                return Ok(instrs);
            }
            let inst = self.expect_instr()?;
            proof {
                if let Ok((rest, q)) = spec_instrs(ts, self.pos as int) {
                    assert(acc + (seq![inst.deep()] + rest) =~= acc.push(inst.deep()) + rest);
                }
            }
            instrs.push(inst);
            proof {
                assert(spec_deep(instrs@) =~= acc.push(inst.deep()));
            }
        }
    }

    /// Reads one instruction if one begins at the position.
    pub fn accept_instr(&mut self) -> (r: ParseResult<Option<Inst>>)
        requires
            old(self).wf(),
        ensures
            final(self).tokens == old(self).tokens,
            final(self).wf(),
            final(self).pos >= old(self).pos,
            if !spec_starts_instr(old(self).ts(), old(self).pos as int) {
                r matches Ok(None) && final(self).pos == old(self).pos
            } else {
                match spec_instr(old(self).ts(), old(self).pos as int) {
                    Ok((v, next)) => r matches Ok(Some(x)) && x.deep() == v && final(self).pos
                        == next,
                    Err(e) => r matches Err(x) && x == e,
                }
            },
    {
        if !self.starts_instr() {
            return Ok(None);
        }
        let inst = self.expect_instr()?;
        Ok(Some(inst))
    }

    /// Reads a function.
    pub fn expect_func(&mut self, ctx: &mut IdentifierContext) -> (r: ParseResult<Func>)
        requires
            old(self).wf(),
        ensures
            final(self).tokens == old(self).tokens,
            final(self).wf(),
            final(self).pos >= old(self).pos,
            match spec_func(old(self).ts(), old(self).pos as int) {
                Ok((v, next)) => r matches Ok(x) && x.deep() == v && final(self).pos == next,
                Err(e) => r matches Err(x) && x == e,
            },
    {
        self.expect_open("func")?;
        let _ = self.accept_name();
        let typ = self.expect_typeuse()?;
        let locals = self.expect_locals()?;
        let expr = self.expect_expr()?;
        match self.expect_rparen() {
            Ok(()) => {},
            Err(e) => {
                return Err(e.context(ParseContext::Func));
            },
        }
        Ok(Func { typ, locals, body: expr })
    }

    /// Reads a table.
    pub fn expect_table(&mut self) -> (r: ParseResult<TableType>)
        requires
            old(self).wf(),
        ensures
            final(self).tokens == old(self).tokens,
            final(self).wf(),
            final(self).pos >= old(self).pos,
            match spec_table(old(self).ts(), old(self).pos as int) {
                Ok((v, next)) => r matches Ok(x) && x == v && final(self).pos == next,
                Err(e) => r matches Err(x) && x == e,
            },
    {
        self.expect_open("table")?;
        let _ = self.accept_name();
        let t = self.expect_tabletype()?;
        self.expect_rparen()?;
        Ok(t)
    }

    /// Reads a memory.
    pub fn expect_memory(&mut self) -> (r: ParseResult<MemType>)
        requires
            old(self).wf(),
        ensures
            final(self).tokens == old(self).tokens,
            final(self).wf(),
            final(self).pos >= old(self).pos,
            match spec_memory(old(self).ts(), old(self).pos as int) {
                Ok((v, next)) => r matches Ok(x) && x == v && final(self).pos == next,
                Err(e) => r matches Err(x) && x == e,
            },
    {
        self.expect_open("memory")?;
        let _ = self.accept_name();
        let limits = self.expect_limits()?;
        self.expect_rparen()?;
        Ok(MemType { limits })
    }

    /// Reads a global.
    pub fn expect_global(&mut self) -> (r: ParseResult<Global>)
        requires
            old(self).wf(),
        ensures
            final(self).tokens == old(self).tokens,
            final(self).wf(),
            final(self).pos >= old(self).pos,
            match spec_global(old(self).ts(), old(self).pos as int) {
                Ok((v, next)) => r matches Ok(x) && x.deep() == v && final(self).pos == next,
                Err(e) => r matches Err(x) && x == e,
            },
    {
        self.expect_open("global")?;
        let _ = self.accept_name();
        let typ = self.expect_globaltype()?;
        let init = self.expect_expr()?;
        self.expect_rparen()?;
        Ok(Global { typ, init })
    }

    /// Reads an export.
    pub fn expect_export(&mut self) -> (r: ParseResult<Export>)
        requires
            old(self).wf(),
        ensures
            final(self).tokens == old(self).tokens,
            final(self).wf(),
            final(self).pos >= old(self).pos,
            match spec_export(old(self).ts(), old(self).pos as int) {
                Ok((v, next)) => r matches Ok(x) && x.deep() == v && final(self).pos == next,
                Err(e) => r matches Err(x) && x == e,
            },
    {
        self.expect_open("export")?;
        let name = self.expect_name()?;
        let kind = self.peek_decl()?;
        self.pos = self.pos + 2;
        let idx = self.expect_index()?;
        self.expect_rparen()?;
        self.expect_rparen()?;
        let desc = if str_eq(kind.as_str(), "func") {
            ExportDesc::Func(FuncIdx(idx))
        } else if str_eq(kind.as_str(), "table") {
            ExportDesc::Table(TableIdx(idx))
        } else if str_eq(kind.as_str(), "memory") {
            ExportDesc::Mem(MemIdx(idx))
        } else if str_eq(kind.as_str(), "global") {
            ExportDesc::Global(GlobalIdx(idx))
        } else {
            return Err(ParseError::FailedExpectedToken);
        };
        Ok(Export { name, desc })
    }

    /// Reads the start function.
    pub fn expect_start(&mut self) -> (r: ParseResult<FuncIdx>)
        requires
            old(self).wf(),
        ensures
            final(self).tokens == old(self).tokens,
            final(self).wf(),
            final(self).pos >= old(self).pos,
            match spec_start(old(self).ts(), old(self).pos as int) {
                Ok((v, next)) => r matches Ok(x) && x == v && final(self).pos == next,
                Err(e) => r matches Err(x) && x == e,
            },
    {
        self.expect_open("start")?;
        let idx = self.expect_index()?;
        self.expect_rparen()?;
        Ok(FuncIdx(idx))
    }

    /// Reads a form `(word index)` if one stands next, and gives 0 if none
    /// does.
    pub fn accept_target(&mut self, word: &str) -> (r: ParseResult<u32>)
        requires
            old(self).wf(),
        ensures
            final(self).tokens == old(self).tokens,
            final(self).wf(),
            final(self).pos >= old(self).pos,
            match spec_target(old(self).ts(), old(self).pos as int, word@) {
                Ok((v, next)) => r matches Ok(x) && x == v && final(self).pos == next,
                Err(e) => r matches Err(x) && x == e,
            },
    {
        if self.is_decl(word) {
            self.pos = self.pos + 2;
            let idx = self.expect_index()?;
            self.expect_rparen()?;
            Ok(idx)
        } else {
            Ok(0)
        }
    }

    /// Reads the offset of an active segment.
    pub fn expect_offset(&mut self) -> (r: ParseResult<Vec<Inst>>)
        requires
            old(self).wf(),
        ensures
            final(self).tokens == old(self).tokens,
            final(self).wf(),
            final(self).pos >= old(self).pos,
            match spec_offset(old(self).ts(), old(self).pos as int) {
                Ok((v, next)) => r matches Ok(x) && spec_deep(x@) == v && final(self).pos == next,
                Err(e) => r matches Err(x) && x == e,
            },
    {
        self.expect_open("offset")?;
        let offset = self.expect_expr()?;
        self.expect_rparen()?;
        Ok(offset)
    }

    /// Reads an element segment.
    pub fn expect_elem(&mut self) -> (r: ParseResult<Elem>)
        requires
            old(self).wf(),
        ensures
            final(self).tokens == old(self).tokens,
            final(self).wf(),
            final(self).pos >= old(self).pos,
            match spec_elem(old(self).ts(), old(self).pos as int) {
                Ok((v, next)) => r matches Ok(x) && x.deep() == v && final(self).pos == next,
                Err(e) => r matches Err(x) && x == e,
            },
    {
        self.expect_open("elem")?;
        let table = self.accept_target("table")?;
        let offset = self.expect_offset()?;
        let _ = self.accept_atom("func");
        let all = self.accept_indices()?;
        self.expect_rparen()?;
        let mut init: Vec<FuncIdx> = Vec::new();
        let mut i: usize = 0;
        while i < all.len()
            invariant
                i <= all@.len(),
                init@ == Seq::new(i as nat, |j: int| FuncIdx(all@[j])),
            decreases all@.len() - i,
        {
            init.push(FuncIdx(all[i]));
            i = i + 1;
            assert(init@ =~= Seq::new(i as nat, |j: int| FuncIdx(all@[j])));
        }
        Ok(Elem { typ: Reftype::Funcref, init, mode: ElemMode::Active { table: TableIdx(table), offset } })
    }

    /// Reads strings as long as they stand next, and joins their bytes.
    pub fn accept_strings(&mut self) -> (r: Vec<u8>)
        requires
            old(self).wf(),
        ensures
            final(self).tokens == old(self).tokens,
            final(self).wf(),
            final(self).pos >= old(self).pos,
            (r@, final(self).pos as int) == spec_strings(old(self).ts(), old(self).pos as int),
    {
        let mut out: Vec<u8> = Vec::new();
        let ghost ts = self.ts();
        let ghost start = self.pos as int;
        proof {
            let (s, q) = spec_strings(ts, start);
            assert(Seq::<u8>::empty() + s =~= s);
        }
        loop
            invariant
                self.wf(),
                self.tokens == old(self).tokens,
                ts == self.ts(),
                start == old(self).pos,
                start <= self.pos,
                spec_strings(ts, start) == (
                    out@ + spec_strings(ts, self.pos as int).0,
                    spec_strings(ts, self.pos as int).1,
                ),
            decreases self.tokens@.len() - self.pos,
        {
            let ghost acc = out@;
            match self.token_at(self.pos) {
                Some(Token::Text(t)) => {
                    self.pos = self.pos + 1;
                    proof {
                        let (rest, q) = spec_strings(ts, self.pos as int);
                        assert(acc + (t.0@ + rest) =~= (acc + t.0@) + rest);
                    }
                    let mut i: usize = 0;
                    while i < t.0.len()
                        invariant
                            i <= t.0@.len(),
                            out@ == acc + t.0@.take(i as int),
                        decreases t.0@.len() - i,
                    {
                        out.push(t.0[i]);
                        i = i + 1;
                        assert(out@ =~= acc + t.0@.take(i as int));
                    }
                    assert(t.0@.take(i as int) =~= t.0@);
                },
                _ => {
                    proof {
                        assert(acc + Seq::<u8>::empty() =~= acc);
                    }
                    return out;
                },
            }
        }
    }

    /// Reads a data segment.
    pub fn expect_data(&mut self) -> (r: ParseResult<Data>)
        requires
            old(self).wf(),
        ensures
            final(self).tokens == old(self).tokens,
            final(self).wf(),
            final(self).pos >= old(self).pos,
            match spec_data(old(self).ts(), old(self).pos as int) {
                Ok((v, next)) => r matches Ok(x) && x.deep() == v && final(self).pos == next,
                Err(e) => r matches Err(x) && x == e,
            },
    {
        self.expect_open("data")?;
        let memory = self.accept_target("memory")?;
        let offset = self.expect_offset()?;
        let init = self.accept_strings();
        self.expect_rparen()?;
        Ok(Data { init, mode: Datamode::Active { memory: MemIdx(memory), offset } })
    }

    /// Reads one field of a module into the module.
    pub fn expect_field(&mut self, module: &mut Module, ctx: &mut IdentifierContext) -> (r:
        ParseResult<()>)
        requires
            old(self).wf(),
        ensures
            final(self).tokens == old(self).tokens,
            final(self).wf(),
            final(self).pos >= old(self).pos,
            match spec_field_of(old(self).ts(), old(self).pos as int, old(module).deep()) {
                Ok((m, next)) => r is Ok && final(module).deep() == m && final(self).pos == next,
                Err(e) => r matches Err(x) && x.deep() == e,
            },
    {
        let ghost m = module.deep();
        let decl = self.peek_decl()?;
        let word = decl.as_str();
        if str_eq(word, "type") {
            let typ = match self.expect_type(ctx) {
                Ok(t) => t,
                Err(e) => {
                    return Err(e.context(ParseContext::Type));
                },
            };
            module.types.push(typ);
            assert(module.deep().types =~= m.types.push(typ@));
        } else if str_eq(word, "import") {
            let import = self.expect_import(ctx)?;
            module.imports.push(import);
            assert(module.deep().imports =~= m.imports.push(import.deep()));
        } else if str_eq(word, "func") {
            let func = self.expect_func(ctx)?;
            module.funcs.push(func);
            assert(module.deep().funcs =~= m.funcs.push(func.deep()));
        } else if str_eq(word, "table") {
            let table = self.expect_table()?;
            module.tables.push(table);
        } else if str_eq(word, "memory") {
            let mem = self.expect_memory()?;
            module.mems.push(mem);
        } else if str_eq(word, "global") {
            let global = self.expect_global()?;
            module.globals.push(global);
            assert(module.deep().globals =~= m.globals.push(global.deep()));
        } else if str_eq(word, "export") {
            let export = self.expect_export()?;
            module.exports.push(export);
            assert(module.deep().exports =~= m.exports.push(export.deep()));
        } else if str_eq(word, "start") {
            let start = self.expect_start()?;
            module.start = Some(start);
        } else if str_eq(word, "elem") {
            let elem = self.expect_elem()?;
            module.elems.push(elem);
            assert(module.deep().elems =~= m.elems.push(elem.deep()));
        } else if str_eq(word, "data") {
            let data = self.expect_data()?;
            module.datas.push(data);
            assert(module.deep().datas =~= m.datas.push(data.deep()));
        } else {
            return Err(ParseError::InvalidModulefield(decl.clone()));
        }
        Ok(())
    }

    /// Reads a module: `(module`, its fields, and `)`. A field that begins
    /// with a word that names no field is refused with that word.
    pub fn module(&mut self) -> (r: ParseResult<Module>)
        requires
            old(self).wf(),
        ensures
            final(self).tokens == old(self).tokens,
            final(self).wf(),
            match spec_module(old(self).ts(), old(self).pos as int) {
                Ok((m, next)) => r matches Ok(x) && x.deep() == m && final(self).pos == next,
                Err(e) => r matches Err(x) && x.deep() == e,
            },
    {
        self.expect_open("module")?;
        let mut module = Module::new();
        let mut ctx = IdentifierContext {  };
        let ghost ts = self.ts();
        let ghost start = self.pos as int;
        proof {
            assert(module.deep().types =~= Seq::empty());
            assert(module.deep().funcs =~= Seq::empty());
            assert(module.deep().globals =~= Seq::empty());
            assert(module.deep().elems =~= Seq::empty());
            assert(module.deep().datas =~= Seq::empty());
            assert(module.deep().imports =~= Seq::empty());
            assert(module.deep().exports =~= Seq::empty());
            assert(module.deep().tables =~= Seq::empty());
            assert(module.deep().mems =~= Seq::empty());
            assert(module.deep() == crate::parser::spec_empty_module());
        }
        loop
            invariant
                self.wf(),
                self.tokens == old(self).tokens,
                ts == self.ts(),
                spec_fields(ts, start, crate::parser::spec_empty_module()) == spec_fields(
                    ts,
                    self.pos as int,
                    module.deep(),
                ),
                spec_module(old(self).ts(), old(self).pos as int) == spec_fields(
                    ts,
                    start,
                    crate::parser::spec_empty_module(),
                ),
            decreases self.tokens@.len() - self.pos,
        {
            if self.accept_rparen() {
                return Ok(module);
            }
            let here: usize = self.pos;
            self.expect_field(&mut module, &mut ctx)?;
            if self.pos <= here {
                return Err(ParseError::UnexpectedEot);
            }
        }
    }
}

} // verus!
