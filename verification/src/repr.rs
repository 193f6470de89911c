//! The decoded, in-memory representation of a module. Pure data.
use vstd::prelude::*;

verus! {

/// The kind of a value, a local, a parameter or a result.
#[derive(Debug, Copy, Clone, PartialEq, Eq, Structural)]
pub enum ValType {
    I32,
    I64,
    F32,
    F64,
    V128,
    FuncRef,
    ExternRef,
}

/// A byte that names no value type.
#[derive(Debug, Copy, Clone, PartialEq, Eq, Structural)]
pub struct UnkownValType(pub u8);

/// The value type that a byte of the binary format names, if any.
pub open spec fn valtype_of_byte(value: u8) -> Option<ValType> {
    if value == 0x7F {
        Some(ValType::I32)
    } else if value == 0x7E {
        Some(ValType::I64)
    } else if value == 0x7D {
        Some(ValType::F32)
    } else if value == 0x7C {
        Some(ValType::F64)
    } else if value == 0x7B {
        Some(ValType::V128)
    } else if value == 0x70 {
        Some(ValType::FuncRef)
    } else if value == 0x6F {
        Some(ValType::ExternRef)
    } else {
        None
    }
}

impl ValType {
    /// The byte that stands for this value type in the binary format.
    pub open spec fn spec_byte(self) -> u8 {
        match self {
            ValType::I32 => 0x7F,
            ValType::I64 => 0x7E,
            ValType::F32 => 0x7D,
            ValType::F64 => 0x7C,
            ValType::V128 => 0x7B,
            ValType::FuncRef => 0x70,
            ValType::ExternRef => 0x6F,
        }
    }

    pub fn byte(self) -> (b: u8)
        ensures
            b == self.spec_byte(),
            valtype_of_byte(b) == Some(self),
    {
        match self {
            ValType::I32 => 0x7F,
            ValType::I64 => 0x7E,
            ValType::F32 => 0x7D,
            ValType::F64 => 0x7C,
            ValType::V128 => 0x7B,
            ValType::FuncRef => 0x70,
            ValType::ExternRef => 0x6F,
        }
    }

    pub fn try_from(value: u8) -> (r: Result<ValType, UnkownValType>)
        ensures
            match valtype_of_byte(value) {
                Some(t) => r == Ok::<ValType, UnkownValType>(t) && t.spec_byte() == value,
                None => r == Err::<ValType, UnkownValType>(UnkownValType(value)),
            },
    {
        if value == 0x7F {
            Ok(ValType::I32)
        } else if value == 0x7E {
            Ok(ValType::I64)
        } else if value == 0x7D {
            Ok(ValType::F32)
        } else if value == 0x7C {
            Ok(ValType::F64)
        } else if value == 0x7B {
            Ok(ValType::V128)
        } else if value == 0x70 {
            Ok(ValType::FuncRef)
        } else if value == 0x6F {
            Ok(ValType::ExternRef)
        } else {
            Err(UnkownValType(value))
        }
    }
}

/// An ordered sequence of value types: the parameters or the results of a
/// function type.
#[derive(Debug, Clone)]
pub struct ResultType {
    pub types: Vec<ValType>,
}

impl View for ResultType {
    type V = Seq<ValType>;

    open spec fn view(&self) -> Seq<ValType> {
        self.types@
    }
}

impl ResultType {
    /// A copy with the same value types in the same order.
    pub fn duplicate(&self) -> (r: ResultType)
        ensures
            r@ == self@,
    {
        let mut types: Vec<ValType> = Vec::new();
        let mut i: usize = 0;
        while i < self.types.len()
            invariant
                i <= self.types.len(),
                types@ == self.types@.take(i as int),
            decreases self.types.len() - i,
        {
            types.push(self.types[i]);
            i = i + 1;
        }
        ResultType { types }
    }

    /// Whether two result types list the same value types in the same order.
    pub fn same(&self, other: &ResultType) -> (r: bool)
        ensures
            r == (self@ == other@),
    {
        if self.types.len() != other.types.len() {
            return false;
        }
        let mut i: usize = 0;
        while i < self.types.len()
            invariant
                i <= self.types.len(),
                self.types.len() == other.types.len(),
                self.types@.take(i as int) == other.types@.take(i as int),
            decreases self.types.len() - i,
        {
            if self.types[i] != other.types[i] {
                assert(self@[i as int] != other@[i as int]);
                return false;
            }
            assert(self.types@.take(i + 1) == self.types@.take(i as int).push(self.types@[i as int]));
            assert(other.types@.take(i + 1) == other.types@.take(i as int).push(other.types@[i as int]));
            i = i + 1;
        }
        assert(self.types@.take(i as int) == self.types@);
        assert(other.types@.take(i as int) == other.types@);
        true
    }
}

/// A function type: parameters `from`, results `to`.
#[derive(Debug, Clone)]
pub struct FuncType {
    pub from: ResultType,
    pub to: ResultType,
}

impl View for FuncType {
    type V = (Seq<ValType>, Seq<ValType>);

    open spec fn view(&self) -> (Seq<ValType>, Seq<ValType>) {
        (self.from@, self.to@)
    }
}

impl FuncType {
    /// A copy with the same parameters and results.
    pub fn duplicate(&self) -> (r: FuncType)
        ensures
            r@ == self@,
    {
        FuncType { from: self.from.duplicate(), to: self.to.duplicate() }
    }

    /// Whether two function types have the same parameters and the same
    /// results.
    pub fn same(&self, other: &FuncType) -> (r: bool)
        ensures
            r == (self@ == other@),
    {
        self.from.same(&other.from) && self.to.same(&other.to)
    }
}

#[derive(Debug, Copy, Clone, PartialEq, Eq, Structural)]
pub struct TypeIdx(pub u32);

#[derive(Debug, Copy, Clone, PartialEq, Eq, Structural)]
pub struct FuncIdx(pub u32);

#[derive(Debug, Copy, Clone, PartialEq, Eq, Structural)]
pub struct TableIdx(pub u32);

#[derive(Debug, Copy, Clone, PartialEq, Eq, Structural)]
pub struct MemIdx(pub u32);

#[derive(Debug, Copy, Clone, PartialEq, Eq, Structural)]
pub struct GlobalIdx(pub u32);

/// A label index counts the enclosing labels outward from the innermost.
#[derive(Debug, Copy, Clone, PartialEq, Eq, Structural)]
pub struct LabelIdx(pub u32);

#[derive(Debug, Copy, Clone, PartialEq, Eq, Structural)]
pub struct LocalIdx(pub u32);

/// A declaration of `n` local variables of type `t`.
#[derive(Debug, Copy, Clone, PartialEq, Eq, Structural)]
pub struct Locals {
    pub n: u32,
    pub t: ValType,
}

/// The undecoded bytes of an expression.
#[derive(Debug, Clone)]
pub struct ExprBytes(pub Vec<u8>);

/// A locally defined function: its type, its declared locals and its body.
#[derive(Debug)]
pub struct Func {
    pub typ: TypeIdx,
    pub locals: Vec<Locals>,
    pub body: Vec<Inst>,
}

#[derive(Debug, Copy, Clone, PartialEq, Eq, Structural)]
pub enum Reftype {
    Funcref,
    Externref,
}

/// A lower bound and an optional upper bound, in pages or in table slots.
#[derive(Debug, Copy, Clone, PartialEq, Eq, Structural)]
pub struct Limits {
    pub min: u32,
    pub max: Option<u32>,
}

impl Limits {
    /// `self` is at least as narrow as `wanted`: an instance with these
    /// limits can stand where `wanted` is declared.
    pub open spec fn spec_fits(self, wanted: Limits) -> bool {
        &&& self.min >= wanted.min
        &&& match wanted.max {
            None => true,
            Some(m) => self.max matches Some(own) && own <= m,
        }
    }

    pub fn fits(self, wanted: Limits) -> (r: bool)
        ensures
            r == self.spec_fits(wanted),
    {
        if self.min < wanted.min {
            return false;
        }
        match wanted.max {
            None => true,
            Some(m) => match self.max {
                Some(own) => own <= m,
                None => false,
            },
        }
    }
}

#[derive(Debug, Copy, Clone, PartialEq, Eq, Structural)]
pub struct TableType {
    pub reftype: Reftype,
    pub limits: Limits,
}

#[derive(Debug, Copy, Clone, PartialEq, Eq, Structural)]
pub struct MemType {
    pub limits: Limits,
}

#[derive(Debug, Copy, Clone, PartialEq, Eq, Structural)]
pub struct GlobalType {
    pub mutable: bool,
    pub t: ValType,
}

/// A global variable: its type and the constant expression that gives its
/// first value.
#[derive(Debug)]
pub struct Global {
    pub typ: GlobalType,
    pub init: Vec<Inst>,
}

#[derive(Debug)]
pub enum ElemMode {
    Passive,
    Active { table: TableIdx, offset: Vec<Inst> },
    Declarative,
}

/// An element segment: function indices to be written into a table.
#[derive(Debug)]
pub struct Elem {
    pub typ: Reftype,
    pub init: Vec<FuncIdx>,
    pub mode: ElemMode,
}

#[derive(Debug)]
pub enum Datamode {
    Passive,
    Active { memory: MemIdx, offset: Vec<Inst> },
}

/// A data segment: bytes to be copied into a memory.
#[derive(Debug)]
pub struct Data {
    pub init: Vec<u8>,
    pub mode: Datamode,
}

#[derive(Debug, Copy, Clone, PartialEq, Eq, Structural)]
pub enum ImportDesc {
    Func(TypeIdx),
    Table(TableType),
    Mem(MemType),
    Global(GlobalType),
}

#[derive(Debug, Clone)]
pub struct Import {
    pub module: String,
    pub nm: String,
    pub desc: ImportDesc,
}

#[derive(Debug, Copy, Clone, PartialEq, Eq, Structural)]
pub enum ExportDesc {
    Func(FuncIdx),
    Table(TableIdx),
    Mem(MemIdx),
    Global(GlobalIdx),
}

#[derive(Debug, Clone)]
pub struct Export {
    pub name: String,
    pub desc: ExportDesc,
}

/// A module: types, functions, tables, memories, globals, segments, imports,
/// exports and an optional start function.
#[derive(Debug)]
pub struct Module {
    pub types: Vec<FuncType>,
    pub funcs: Vec<Func>,
    pub tables: Vec<TableType>,
    pub mems: Vec<MemType>,
    pub globals: Vec<Global>,
    pub elems: Vec<Elem>,
    pub datas: Vec<Data>,
    pub start: Option<FuncIdx>,
    pub imports: Vec<Import>,
    pub exports: Vec<Export>,
}

impl Module {
    /// The module with nothing in it.
    pub fn new() -> (m: Module)
        ensures
            m.is_empty(),
    {
        Module {
            types: Vec::new(),
            funcs: Vec::new(),
            tables: Vec::new(),
            mems: Vec::new(),
            globals: Vec::new(),
            elems: Vec::new(),
            datas: Vec::new(),
            start: None,
            imports: Vec::new(),
            exports: Vec::new(),
        }
    }

    pub open spec fn is_empty(&self) -> bool {
        &&& self.types@.len() == 0
        &&& self.funcs@.len() == 0
        &&& self.tables@.len() == 0
        &&& self.mems@.len() == 0
        &&& self.globals@.len() == 0
        &&& self.elems@.len() == 0
        &&& self.datas@.len() == 0
        &&& self.start is None
        &&& self.imports@.len() == 0
        &&& self.exports@.len() == 0
    }

    /// The locally defined function with index `index` among the local
    /// definitions.
    pub fn func(&self, index: FuncIdx) -> (r: Option<&Func>)
        ensures
            r == if index.0 < self.funcs@.len() {
                Some(&self.funcs@[index.0 as int])
            } else {
                None
            },
    {
        if (index.0 as usize) < self.funcs.len() {
            Some(&self.funcs[index.0 as usize])
        } else {
            None
        }
    }

    /// The function type with index `index`.
    pub fn typ(&self, index: TypeIdx) -> (r: Option<&FuncType>)
        ensures
            r == if index.0 < self.types@.len() {
                Some(&self.types@[index.0 as int])
            } else {
                None
            },
    {
        if (index.0 as usize) < self.types.len() {
            Some(&self.types[index.0 as usize])
        } else {
            None
        }
    }
}

/// The sections of the binary format.
#[derive(Debug, Copy, Clone, PartialEq, Eq, Structural)]
pub enum SectionId {
    Custom,
    Type,
    Import,
    Function,
    Table,
    Memory,
    Global,
    Export,
    Start,
    Element,
    Code,
    Data,
    DataCount,
}

/// A byte that names no section.
#[derive(Debug, Copy, Clone, PartialEq, Eq, Structural)]
pub struct UnkownSection(pub u8);

impl SectionId {
    /// The number of this section in the binary format.
    pub open spec fn spec_id(self) -> u8 {
        match self {
            SectionId::Custom => 0,
            SectionId::Type => 1,
            SectionId::Import => 2,
            SectionId::Function => 3,
            SectionId::Table => 4,
            SectionId::Memory => 5,
            SectionId::Global => 6,
            SectionId::Export => 7,
            SectionId::Start => 8,
            SectionId::Element => 9,
            SectionId::Code => 10,
            SectionId::Data => 11,
            SectionId::DataCount => 12,
        }
    }

    pub fn try_from(value: u8) -> (r: Result<SectionId, UnkownSection>)
        ensures
            value <= 12 ==> r is Ok && r->Ok_0.spec_id() == value,
            value > 12 ==> r == Err::<SectionId, UnkownSection>(UnkownSection(value)),
    {
        if value == 0 {
            Ok(SectionId::Custom)
        } else if value == 1 {
            Ok(SectionId::Type)
        } else if value == 2 {
            Ok(SectionId::Import)
        } else if value == 3 {
            Ok(SectionId::Function)
        } else if value == 4 {
            Ok(SectionId::Table)
        } else if value == 5 {
            Ok(SectionId::Memory)
        } else if value == 6 {
            Ok(SectionId::Global)
        } else if value == 7 {
            Ok(SectionId::Export)
        } else if value == 8 {
            Ok(SectionId::Start)
        } else if value == 9 {
            Ok(SectionId::Element)
        } else if value == 10 {
            Ok(SectionId::Code)
        } else if value == 11 {
            Ok(SectionId::Data)
        } else if value == 12 {
            Ok(SectionId::DataCount)
        } else {
            Err(UnkownSection(value))
        }
    }
}

/// The immediate of a load or store: an alignment hint, as the binary
/// logarithm of a byte count, and a constant byte offset.
#[derive(Debug, Copy, Clone, PartialEq, Eq, Structural)]
pub struct MemArg {
    pub align: u32,
    pub offset: u32,
}

/// The type of a block: nothing, one result, or a function type of the
/// module.
#[derive(Debug, Copy, Clone, PartialEq, Eq, Structural)]
pub enum BlockType {
    Empty,
    Inline(ValType),
    Type(TypeIdx),
}

/// A nested instruction sequence.
#[derive(Debug)]
pub struct Expr {
    pub instructions: Vec<Inst>,
}

impl Expr {
    pub fn from(value: Vec<Inst>) -> (e: Expr)
        ensures
            e.instructions == value,
    {
        Expr { instructions: value }
    }

    pub fn as_ref(&self) -> (r: &Vec<Inst>)
        ensures
            r == &self.instructions,
    {
        &self.instructions
    }
}

#[derive(Debug, Copy, Clone, PartialEq, Eq, Structural)]
pub enum IntUnop {
    Clz,
    Ctz,
    Popcnt,
}

#[derive(Debug, Copy, Clone, PartialEq, Eq, Structural)]
pub enum IntBinop {
    Add,
    Sub,
    Mul,
    DivS,
    DivU,
    RemS,
    RemU,
    And,
    Or,
    Xor,
    Shl,
    ShrS,
    ShrU,
    Rotl,
    Rotr,
}

#[derive(Debug, Copy, Clone, PartialEq, Eq, Structural)]
pub enum IntRelop {
    Eq,
    Ne,
    LtS,
    LtU,
    GtS,
    GtU,
    LeS,
    LeU,
    GeS,
    GeU,
}

/// Conversions whose operand and result are integers or bit patterns.
#[derive(Debug, Copy, Clone, PartialEq, Eq, Structural)]
pub enum IntConv {
    I32WrapI64,
    I64ExtendI32S,
    I64ExtendI32U,
    I32ReinterpretF32,
    I64ReinterpretF64,
    F32ReinterpretI32,
    F64ReinterpretI64,
}

#[derive(Debug, Copy, Clone, PartialEq, Eq, Structural)]
pub enum FloatUnop {
    Abs,
    Neg,
    Ceil,
    Floor,
    Trunc,
    Nearest,
    Sqrt,
}

#[derive(Debug, Copy, Clone, PartialEq, Eq, Structural)]
pub enum FloatBinop {
    Add,
    Sub,
    Mul,
    Div,
    Min,
    Max,
    Copysign,
}

#[derive(Debug, Copy, Clone, PartialEq, Eq, Structural)]
pub enum FloatRelop {
    Eq,
    Ne,
    Lt,
    Gt,
    Le,
    Ge,
}

/// Conversions that round, or that read a number out of a bit pattern.
#[derive(Debug, Copy, Clone, PartialEq, Eq, Structural)]
pub enum FloatConv {
    I32TruncF32S,
    I32TruncF32U,
    I32TruncF64S,
    I32TruncF64U,
    I64TruncF32S,
    I64TruncF32U,
    I64TruncF64S,
    I64TruncF64U,
    F32ConvertI32S,
    F32ConvertI32U,
    F32ConvertI64S,
    F32ConvertI64U,
    F32DemoteF64,
    F64ConvertI32S,
    F64ConvertI32U,
    F64ConvertI64S,
    F64ConvertI64U,
    F64PromoteF32,
}

/// The operations on numbers in binary floating point. The machine does not
/// compute them: it hands the operands to the embedder and takes the result
/// back.
#[derive(Debug, Copy, Clone, PartialEq, Eq, Structural)]
pub enum FloatOp {
    Unary32(FloatUnop),
    Unary64(FloatUnop),
    Binary32(FloatBinop),
    Binary64(FloatBinop),
    Compare32(FloatRelop),
    Compare64(FloatRelop),
    Convert(FloatConv),
}

impl FloatConv {
    /// The kind of the operand.
    pub open spec fn spec_source(self) -> ValType {
        match self {
            FloatConv::I32TruncF32S | FloatConv::I32TruncF32U | FloatConv::I64TruncF32S
            | FloatConv::I64TruncF32U | FloatConv::F64PromoteF32 => ValType::F32,
            FloatConv::I32TruncF64S | FloatConv::I32TruncF64U | FloatConv::I64TruncF64S
            | FloatConv::I64TruncF64U | FloatConv::F32DemoteF64 => ValType::F64,
            FloatConv::F32ConvertI32S | FloatConv::F32ConvertI32U | FloatConv::F64ConvertI32S
            | FloatConv::F64ConvertI32U => ValType::I32,
            FloatConv::F32ConvertI64S | FloatConv::F32ConvertI64U | FloatConv::F64ConvertI64S
            | FloatConv::F64ConvertI64U => ValType::I64,
        }
    }

    /// The kind of the result.
    pub open spec fn spec_target(self) -> ValType {
        match self {
            FloatConv::I32TruncF32S | FloatConv::I32TruncF32U | FloatConv::I32TruncF64S
            | FloatConv::I32TruncF64U => ValType::I32,
            FloatConv::I64TruncF32S | FloatConv::I64TruncF32U | FloatConv::I64TruncF64S
            | FloatConv::I64TruncF64U => ValType::I64,
            FloatConv::F32ConvertI32S | FloatConv::F32ConvertI32U | FloatConv::F32ConvertI64S
            | FloatConv::F32ConvertI64U | FloatConv::F32DemoteF64 => ValType::F32,
            FloatConv::F64ConvertI32S | FloatConv::F64ConvertI32U | FloatConv::F64ConvertI64S
            | FloatConv::F64ConvertI64U | FloatConv::F64PromoteF32 => ValType::F64,
        }
    }

    pub fn source(self) -> (t: ValType)
        ensures
            t == self.spec_source(),
    {
        match self {
            FloatConv::I32TruncF32S | FloatConv::I32TruncF32U | FloatConv::I64TruncF32S
            | FloatConv::I64TruncF32U | FloatConv::F64PromoteF32 => ValType::F32,
            FloatConv::I32TruncF64S | FloatConv::I32TruncF64U | FloatConv::I64TruncF64S
            | FloatConv::I64TruncF64U | FloatConv::F32DemoteF64 => ValType::F64,
            FloatConv::F32ConvertI32S | FloatConv::F32ConvertI32U | FloatConv::F64ConvertI32S
            | FloatConv::F64ConvertI32U => ValType::I32,
            FloatConv::F32ConvertI64S | FloatConv::F32ConvertI64U | FloatConv::F64ConvertI64S
            | FloatConv::F64ConvertI64U => ValType::I64,
        }
    }

    pub fn target(self) -> (t: ValType)
        ensures
            t == self.spec_target(),
    {
        match self {
            FloatConv::I32TruncF32S | FloatConv::I32TruncF32U | FloatConv::I32TruncF64S
            | FloatConv::I32TruncF64U => ValType::I32,
            FloatConv::I64TruncF32S | FloatConv::I64TruncF32U | FloatConv::I64TruncF64S
            | FloatConv::I64TruncF64U => ValType::I64,
            FloatConv::F32ConvertI32S | FloatConv::F32ConvertI32U | FloatConv::F32ConvertI64S
            | FloatConv::F32ConvertI64U | FloatConv::F32DemoteF64 => ValType::F32,
            FloatConv::F64ConvertI32S | FloatConv::F64ConvertI32U | FloatConv::F64ConvertI64S
            | FloatConv::F64ConvertI64U | FloatConv::F64PromoteF32 => ValType::F64,
        }
    }
}

impl FloatOp {
    /// How many operands the operation takes.
    pub open spec fn spec_operands(self) -> nat {
        match self {
            FloatOp::Unary32(_) | FloatOp::Unary64(_) | FloatOp::Convert(_) => 1,
            _ => 2,
        }
    }

    /// The kind of each operand.
    pub open spec fn spec_operand_type(self) -> ValType {
        match self {
            FloatOp::Unary32(_) | FloatOp::Binary32(_) | FloatOp::Compare32(_) => ValType::F32,
            FloatOp::Unary64(_) | FloatOp::Binary64(_) | FloatOp::Compare64(_) => ValType::F64,
            FloatOp::Convert(c) => c.spec_source(),
        }
    }

    /// The kind of the result.
    pub open spec fn spec_result_type(self) -> ValType {
        match self {
            FloatOp::Unary32(_) | FloatOp::Binary32(_) => ValType::F32,
            FloatOp::Unary64(_) | FloatOp::Binary64(_) => ValType::F64,
            FloatOp::Compare32(_) | FloatOp::Compare64(_) => ValType::I32,
            FloatOp::Convert(c) => c.spec_target(),
        }
    }

    pub fn operands(self) -> (n: usize)
        ensures
            n == self.spec_operands(),
    {
        match self {
            FloatOp::Unary32(_) | FloatOp::Unary64(_) | FloatOp::Convert(_) => 1,
            _ => 2,
        }
    }

    pub fn operand_type(self) -> (t: ValType)
        ensures
            t == self.spec_operand_type(),
    {
        match self {
            FloatOp::Unary32(_) | FloatOp::Binary32(_) | FloatOp::Compare32(_) => ValType::F32,
            FloatOp::Unary64(_) | FloatOp::Binary64(_) | FloatOp::Compare64(_) => ValType::F64,
            FloatOp::Convert(c) => c.source(),
        }
    }

    pub fn result_type(self) -> (t: ValType)
        ensures
            t == self.spec_result_type(),
    {
        match self {
            FloatOp::Unary32(_) | FloatOp::Binary32(_) => ValType::F32,
            FloatOp::Unary64(_) | FloatOp::Binary64(_) => ValType::F64,
            FloatOp::Compare32(_) | FloatOp::Compare64(_) => ValType::I32,
            FloatOp::Convert(c) => c.target(),
        }
    }
}

/// What a load reads: the kind of the result, the number of bytes, and
/// whether a narrow value is sign-extended.
#[derive(Debug, Copy, Clone, PartialEq, Eq, Structural)]
pub enum LoadOp {
    I32Load,
    I64Load,
    F32Load,
    F64Load,
    I32Load8S,
    I32Load8U,
    I32Load16S,
    I32Load16U,
    I64Load8S,
    I64Load8U,
    I64Load16S,
    I64Load16U,
    I64Load32S,
    I64Load32U,
}

/// What a store writes: the kind of the operand and the number of bytes.
#[derive(Debug, Copy, Clone, PartialEq, Eq, Structural)]
pub enum StoreOp {
    I32Store,
    I64Store,
    F32Store,
    F64Store,
    I32Store8,
    I32Store16,
    I64Store8,
    I64Store16,
    I64Store32,
}

/// One instruction. `Block`, `Loop` and `IfElse` carry nested instruction
/// sequences; floating-point constants are carried as bit patterns.
#[derive(Debug)]
pub enum Inst {
    // Control instructions
    Unreachable,
    Nop,
    Block(BlockType, Expr),
    Loop(BlockType, Expr),
    IfElse(BlockType, Expr, Expr),
    Break(LabelIdx),
    BreakIf(LabelIdx),
    BreakTable(Vec<LabelIdx>, LabelIdx),
    Return,
    Call(FuncIdx),
    CallIndirect(TypeIdx, TableIdx),
    // Parametric instructions
    Drop,
    Select,
    // Variable instructions
    LocalGet(LocalIdx),
    LocalSet(LocalIdx),
    LocalTee(LocalIdx),
    GlobalGet(GlobalIdx),
    GlobalSet(GlobalIdx),
    // Memory instructions
    Load(LoadOp, MemArg),
    Store(StoreOp, MemArg),
    MemorySize,
    MemoryGrow,
    // Constants
    I32Const(i32),
    I64Const(i64),
    F32Const(u32),
    F64Const(u64),
    // Integer instructions
    I32Eqz,
    I64Eqz,
    I32Compare(IntRelop),
    I64Compare(IntRelop),
    I32Unary(IntUnop),
    I64Unary(IntUnop),
    I32Binary(IntBinop),
    I64Binary(IntBinop),
    Convert(IntConv),
    // Floating-point instructions
    Float(FloatOp),
}

/// An instruction as a value: a nested sequence is seen as the sequence
/// of its instructions' values; an instruction without nested parts stands
/// for itself.
pub enum InstView {
    Block(BlockType, Seq<InstView>),
    Loop(BlockType, Seq<InstView>),
    IfElse(BlockType, Seq<InstView>, Seq<InstView>),
    BreakTable(Seq<LabelIdx>, LabelIdx),
    Plain(Inst),
}

impl Inst {
    /// The instruction as a value.
    pub open spec fn deep(self) -> InstView
        decreases self,
    {
        match self {
            Inst::Block(bt, e) => InstView::Block(
                bt,
                Seq::new(
                    e.instructions@.len(),
                    |i: int|
                        if 0 <= i < e.instructions@.len() {
                            e.instructions@[i].deep()
                        } else {
                            arbitrary()
                        },
                ),
            ),
            Inst::Loop(bt, e) => InstView::Loop(
                bt,
                Seq::new(
                    e.instructions@.len(),
                    |i: int|
                        if 0 <= i < e.instructions@.len() {
                            e.instructions@[i].deep()
                        } else {
                            arbitrary()
                        },
                ),
            ),
            Inst::IfElse(bt, a, b) => InstView::IfElse(
                bt,
                Seq::new(
                    a.instructions@.len(),
                    |i: int|
                        if 0 <= i < a.instructions@.len() {
                            a.instructions@[i].deep()
                        } else {
                            arbitrary()
                        },
                ),
                Seq::new(
                    b.instructions@.len(),
                    |i: int|
                        if 0 <= i < b.instructions@.len() {
                            b.instructions@[i].deep()
                        } else {
                            arbitrary()
                        },
                ),
            ),
            Inst::BreakTable(ls, d) => InstView::BreakTable(ls@, d),
            _ => InstView::Plain(self),
        }
    }
}

/// A sequence of instructions as a value.
pub open spec fn spec_deep(s: Seq<Inst>) -> Seq<InstView> {
    Seq::new(s.len(), |i: int| s[i].deep())
}

/// The value of an instruction with nested sequences is made of the values
/// of the sequences.
pub proof fn lemma_deep_nested(inst: Inst)
    ensures
        inst matches Inst::Block(bt, e) ==> inst.deep() == InstView::Block(
            bt,
            spec_deep(e.instructions@),
        ),
        inst matches Inst::Loop(bt, e) ==> inst.deep() == InstView::Loop(
            bt,
            spec_deep(e.instructions@),
        ),
        inst matches Inst::IfElse(bt, a, b) ==> inst.deep() == InstView::IfElse(
            bt,
            spec_deep(a.instructions@),
            spec_deep(b.instructions@),
        ),
{
    match inst {
        Inst::Block(bt, e) => {
            assert(inst.deep()->Block_1 =~= spec_deep(e.instructions@));
        },
        Inst::Loop(bt, e) => {
            assert(inst.deep()->Loop_1 =~= spec_deep(e.instructions@));
        },
        Inst::IfElse(bt, a, b) => {
            assert(inst.deep()->IfElse_1 =~= spec_deep(a.instructions@));
            assert(inst.deep()->IfElse_2 =~= spec_deep(b.instructions@));
        },
        _ => {},
    }
}

/// A function as a value.
pub struct FuncView {
    pub typ: TypeIdx,
    pub locals: Seq<Locals>,
    pub body: Seq<InstView>,
}

/// A global as a value.
pub struct GlobalView {
    pub typ: GlobalType,
    pub init: Seq<InstView>,
}

pub enum ElemModeView {
    Passive,
    Active { table: TableIdx, offset: Seq<InstView> },
    Declarative,
}

/// An element segment as a value.
pub struct ElemView {
    pub typ: Reftype,
    pub init: Seq<FuncIdx>,
    pub mode: ElemModeView,
}

pub enum DatamodeView {
    Passive,
    Active { memory: MemIdx, offset: Seq<InstView> },
}

/// A data segment as a value.
pub struct DataView {
    pub init: Seq<u8>,
    pub mode: DatamodeView,
}

/// An import as a value.
pub struct ImportView {
    pub module: Seq<char>,
    pub nm: Seq<char>,
    pub desc: ImportDesc,
}

/// An export as a value.
pub struct ExportView {
    pub name: Seq<char>,
    pub desc: ExportDesc,
}

/// A module as a value.
pub struct ModuleView {
    pub types: Seq<(Seq<ValType>, Seq<ValType>)>,
    pub funcs: Seq<FuncView>,
    pub tables: Seq<TableType>,
    pub mems: Seq<MemType>,
    pub globals: Seq<GlobalView>,
    pub elems: Seq<ElemView>,
    pub datas: Seq<DataView>,
    pub start: Option<FuncIdx>,
    pub imports: Seq<ImportView>,
    pub exports: Seq<ExportView>,
}

impl Func {
    pub open spec fn deep(self) -> FuncView {
        FuncView { typ: self.typ, locals: self.locals@, body: spec_deep(self.body@) }
    }
}

impl Global {
    pub open spec fn deep(self) -> GlobalView {
        GlobalView { typ: self.typ, init: spec_deep(self.init@) }
    }
}

impl Elem {
    pub open spec fn deep(self) -> ElemView {
        ElemView {
            typ: self.typ,
            init: self.init@,
            mode: match self.mode {
                ElemMode::Passive => ElemModeView::Passive,
                ElemMode::Active { table, offset } => ElemModeView::Active {
                    table,
                    offset: spec_deep(offset@),
                },
                ElemMode::Declarative => ElemModeView::Declarative,
            },
        }
    }
}

impl Data {
    pub open spec fn deep(self) -> DataView {
        DataView {
            init: self.init@,
            mode: match self.mode {
                Datamode::Passive => DatamodeView::Passive,
                Datamode::Active { memory, offset } => DatamodeView::Active {
                    memory,
                    offset: spec_deep(offset@),
                },
            },
        }
    }
}

impl Import {
    pub open spec fn deep(self) -> ImportView {
        ImportView { module: self.module@, nm: self.nm@, desc: self.desc }
    }
}

impl Export {
    pub open spec fn deep(self) -> ExportView {
        ExportView { name: self.name@, desc: self.desc }
    }
}

impl Module {
    pub open spec fn deep(self) -> ModuleView {
        ModuleView {
            types: Seq::new(self.types@.len(), |i: int| self.types@[i]@),
            funcs: Seq::new(self.funcs@.len(), |i: int| self.funcs@[i].deep()),
            tables: self.tables@,
            mems: self.mems@,
            globals: Seq::new(self.globals@.len(), |i: int| self.globals@[i].deep()),
            elems: Seq::new(self.elems@.len(), |i: int| self.elems@[i].deep()),
            datas: Seq::new(self.datas@.len(), |i: int| self.datas@[i].deep()),
            start: self.start,
            imports: Seq::new(self.imports@.len(), |i: int| self.imports@[i].deep()),
            exports: Seq::new(self.exports@.len(), |i: int| self.exports@[i].deep()),
        }
    }
}

} // verus!
