//! The binary format, written: the bytes that encode a module, and the
//! proof that decoding them gives the module back.
use vstd::prelude::*;
use crate::instance::{lemma_le_encode_len, lemma_le_round_trip, spec_le_encode, spec_pow256};
use vstd::utf8::encode_utf8;
use crate::parser::{
    spec_body, spec_byte, spec_fixed, spec_instr, spec_leb, spec_load_op, spec_one_section,
    spec_plain, spec_pow128, spec_pow2, spec_signed, spec_store_op, spec_u32, DecodeError,
};
use crate::repr::{
    spec_deep, valtype_of_byte, Data, Datamode, Elem, ElemMode, Export, Func, FuncType, Global,
    Import, Module, BlockType, DataView, DatamodeView, ElemModeView, ElemView, ExportDesc,
    ExportView, FuncIdx, FuncView, GlobalType, GlobalView, ImportDesc, ImportView, Inst, InstView,
    FloatBinop, FloatConv, FloatOp, FloatRelop, FloatUnop, IntBinop, IntConv, IntRelop, IntUnop,
    LabelIdx, Limits, LoadOp, Locals, MemArg, MemType, ModuleView, Reftype, StoreOp, TableType,
    TypeIdx, ValType,
};

verus! {

/// Whether the bytes `s` stand in `bytes` at `pos`.
pub open spec fn spec_has(bytes: Seq<u8>, pos: int, s: Seq<u8>) -> bool {
    0 <= pos && pos + s.len() <= bytes.len() && bytes.subrange(pos, pos + s.len()) == s
}

/// Where two runs of bytes stand one after the other, each of them stands
/// at its place.
pub proof fn lemma_has_split(bytes: Seq<u8>, pos: int, a: Seq<u8>, b: Seq<u8>)
    requires
        spec_has(bytes, pos, a + b),
    ensures
        spec_has(bytes, pos, a),
        spec_has(bytes, pos + a.len(), b),
{
    let whole = bytes.subrange(pos, pos + (a + b).len());
    assert(bytes.subrange(pos, pos + a.len()) =~= a) by {
        assert forall|i: int| 0 <= i < a.len() implies bytes.subrange(pos, pos + a.len())[i]
            == a[i] by {
            assert(whole[i] == (a + b)[i]);
        }
    }
    assert(bytes.subrange(pos + a.len(), pos + a.len() + b.len()) =~= b) by {
        assert forall|i: int| 0 <= i < b.len() implies bytes.subrange(
            pos + a.len(),
            pos + a.len() + b.len(),
        )[i] == b[i] by {
            assert(whole[a.len() + i] == (a + b)[a.len() + i]);
        }
    }
}

/// Where a byte stands at a place, it is the byte at that place.
pub proof fn lemma_has_byte(bytes: Seq<u8>, pos: int, b: u8)
    requires
        spec_has(bytes, pos, seq![b]),
    ensures
        0 <= pos < bytes.len(),
        bytes[pos] == b,
        spec_byte(bytes, pos) == Ok::<(u8, int), DecodeError>((b, pos + 1)),
{
    assert(bytes.subrange(pos, pos + 1)[0] == seq![b][0]);
}

/// The bytes of an unsigned number in LEB128, as few as can be.
pub open spec fn spec_enc_u(v: nat) -> Seq<u8>
    decreases v,
{
    if v < 128 {
        seq![v as u8]
    } else {
        seq![(v % 128 + 128) as u8] + spec_enc_u(v / 128)
    }
}

/// An unsigned number below 128 to the `k` takes at most `k` bytes, and at
/// least one.
pub proof fn lemma_enc_u_len(v: nat, k: nat)
    requires
        k >= 1,
        v < spec_pow128(k),
    ensures
        1 <= spec_enc_u(v).len() <= k,
    decreases v,
{
    reveal_with_fuel(spec_pow128, 2);
    if v >= 128 {
        lemma_enc_u_len(v / 128, (k - 1) as nat);
    }
}

/// Decoding the bytes of an unsigned number gives the number back.
pub proof fn lemma_leb_round_trip(bytes: Seq<u8>, pos: int, v: nat, max: nat)
    requires
        spec_has(bytes, pos, spec_enc_u(v)),
        spec_enc_u(v).len() <= max,
    ensures
        spec_leb(bytes, pos, max) == Ok::<(nat, nat), DecodeError>((v, spec_enc_u(v).len())),
    decreases v,
{
    if v < 128 {
        lemma_has_byte(bytes, pos, v as u8);
    } else {
        let head = seq![(v % 128 + 128) as u8];
        lemma_has_split(bytes, pos, head, spec_enc_u(v / 128));
        lemma_has_byte(bytes, pos, (v % 128 + 128) as u8);
        lemma_leb_round_trip(bytes, pos + 1, v / 128, (max - 1) as nat);
    }
}

/// Decoding the bytes of an unsigned number of 32 bits gives the number
/// back.
pub proof fn lemma_u32_round_trip(bytes: Seq<u8>, pos: int, v: u32)
    requires
        spec_has(bytes, pos, spec_enc_u(v as nat)),
    ensures
        spec_u32(bytes, pos) == Ok::<(u32, int), DecodeError>(
            (v, pos + spec_enc_u(v as nat).len()),
        ),
        1 <= spec_enc_u(v as nat).len() <= 5,
{
    reveal_with_fuel(spec_pow128, 6);
    lemma_enc_u_len(v as nat, 5);
    lemma_leb_round_trip(bytes, pos, v as nat, 5);
}

/// The bytes of a signed number in LEB128, as few as can be: the last
/// byte carries the sign in its bit 6.
pub open spec fn spec_enc_s(v: int) -> Seq<u8>
    decreases (if v >= 0 { v } else { -v }),
{
    if -64 <= v < 64 {
        seq![(v % 128) as u8]
    } else {
        seq![(v % 128 + 128) as u8] + spec_enc_s(v / 128)
    }
}

/// A signed number between -64 * 128^(k-1) and 64 * 128^(k-1) takes at
/// most `k` bytes, and at least one.
pub proof fn lemma_enc_s_len(v: int, k: nat)
    requires
        k >= 1,
        -64 * spec_pow128((k - 1) as nat) <= v < 64 * spec_pow128((k - 1) as nat),
    ensures
        1 <= spec_enc_s(v).len() <= k,
    decreases (if v >= 0 { v } else { -v }),
{
    reveal_with_fuel(spec_pow128, 2);
    if !(-64 <= v < 64) {
        lemma_enc_s_len(v / 128, (k - 1) as nat);
    }
}

/// What the bytes of a signed number denote when they are read as an
/// unsigned number: the number itself, or, if it is negative, the number
/// plus 128 to the number of bytes; and the last byte tells which.
pub proof fn lemma_leb_signed(bytes: Seq<u8>, pos: int, v: int, max: nat)
    requires
        spec_has(bytes, pos, spec_enc_s(v)),
        spec_enc_s(v).len() <= max,
    ensures
        ({
            let n = spec_enc_s(v).len();
            &&& spec_leb(bytes, pos, max) == Ok::<(nat, nat), DecodeError>(
                ((if v >= 0 { v } else { v + spec_pow128(n) }) as nat, n),
            )
            &&& (bytes[pos + n - 1] >= 64) == (v < 0)
            &&& v < spec_pow128(n)
            &&& v + spec_pow128(n) >= 0
        }),
    decreases (if v >= 0 { v } else { -v }),
{
    reveal_with_fuel(spec_pow128, 2);
    if -64 <= v < 64 {
        lemma_has_byte(bytes, pos, (v % 128) as u8);
    } else {
        let head = seq![(v % 128 + 128) as u8];
        lemma_has_split(bytes, pos, head, spec_enc_s(v / 128));
        lemma_has_byte(bytes, pos, (v % 128 + 128) as u8);
        lemma_leb_signed(bytes, pos + 1, v / 128, (max - 1) as nat);
        let n = spec_enc_s(v / 128).len();
        assert(spec_pow128(n + 1) == 128 * spec_pow128(n));
    }
}

/// Decoding the bytes of a signed number of `bits` bits, 32, 33 or 64,
/// gives the number back.
pub proof fn lemma_signed_round_trip(bytes: Seq<u8>, pos: int, v: int, max: nat, bits: nat)
    requires
        spec_has(bytes, pos, spec_enc_s(v)),
        (max == 5 && (bits == 32 || bits == 33)) || (max == 10 && bits == 64),
        -spec_pow2(bits) <= 2 * v < spec_pow2(bits),
    ensures
        spec_signed(bytes, pos, max, bits) == Ok::<(int, int), DecodeError>(
            (v, pos + spec_enc_s(v).len()),
        ),
        1 <= spec_enc_s(v).len() <= max,
{
    reveal_with_fuel(spec_pow128, 11);
    lemma_enc_s_len(v, max);
    lemma_leb_signed(bytes, pos, v, max);
}

/// Decoding the `n` bytes of a number, least significant first, gives the
/// number back.
pub proof fn lemma_fixed_round_trip(bytes: Seq<u8>, pos: int, v: u64, n: nat)
    requires
        n <= 8,
        v < spec_pow256(n),
        spec_has(bytes, pos, spec_le_encode(v as nat, n)),
    ensures
        spec_fixed(bytes, pos, n) == Ok::<(u64, int), DecodeError>((v, pos + n)),
        spec_le_encode(v as nat, n).len() == n,
{
    lemma_le_encode_len(v as nat, n);
    lemma_le_round_trip(v as nat, n);
    vstd::arithmetic::div_mod::lemma_small_mod(v as nat, spec_pow256(n));
}

/// The byte of a value type.
pub open spec fn spec_enc_valtype(t: ValType) -> Seq<u8> {
    seq![t.spec_byte()]
}

pub proof fn lemma_rt_valtype(bytes: Seq<u8>, pos: int, t: ValType)
    requires
        spec_has(bytes, pos, spec_enc_valtype(t)),
    ensures
        crate::parser::spec_valtype(bytes, pos) == Ok::<(ValType, int), DecodeError>(
            (t, pos + spec_enc_valtype(t).len()),
        ),
{
    lemma_has_byte(bytes, pos, t.spec_byte());
}

/// The bytes of value types, one after the other.
pub open spec fn spec_enc_valtypes(items: Seq<ValType>) -> Seq<u8>
    decreases items.len(),
{
    if items.len() == 0 {
        Seq::empty()
    } else {
        spec_enc_valtype(items[0]) + spec_enc_valtypes(items.drop_first())
    }
}

/// Decoding the bytes of value types gives them back.
pub proof fn lemma_rt_valtypes(bytes: Seq<u8>, pos: int, items: Seq<ValType>)
    requires
        spec_has(bytes, pos, spec_enc_valtypes(items)),
    ensures
        crate::parser::spec_valtypes(bytes, pos, items.len()) == Ok::<(Seq<ValType>, int), DecodeError>(
            (items, pos + spec_enc_valtypes(items).len()),
        ),
    decreases items.len(),
{
    if items.len() > 0 {
        let rest = items.drop_first();
        lemma_has_split(bytes, pos, spec_enc_valtype(items[0]), spec_enc_valtypes(rest));
        lemma_rt_valtype(bytes, pos, items[0]);
        assert forall|i: int| 0 <= i < rest.len() implies #[trigger] rest[i] == items[i + 1] by {}
        lemma_rt_valtypes(bytes, pos + spec_enc_valtype(items[0]).len(), rest);
        assert(seq![items[0]] + rest =~= items);
        assert(rest.len() == items.len() - 1);
    } else {
        assert(items =~= Seq::<ValType>::empty());
    }
}

/// The byte of a reference type.
pub open spec fn spec_enc_reftype(t: Reftype) -> Seq<u8> {
    match t {
        Reftype::Funcref => seq![0x70u8],
        Reftype::Externref => seq![0x6Fu8],
    }
}

pub proof fn lemma_rt_reftype(bytes: Seq<u8>, pos: int, t: Reftype)
    requires
        spec_has(bytes, pos, spec_enc_reftype(t)),
    ensures
        crate::parser::spec_reftype(bytes, pos) == Ok::<(Reftype, int), DecodeError>(
            (t, pos + spec_enc_reftype(t).len()),
        ),
{
    lemma_has_byte(bytes, pos, spec_enc_reftype(t)[0]);
}

/// The bytes of limits: a flag that says whether there is an upper bound,
/// and the bounds.
pub open spec fn spec_enc_limits(l: Limits) -> Seq<u8> {
    match l.max {
        None => seq![0x00u8] + spec_enc_u(l.min as nat),
        Some(max) => seq![0x01u8] + spec_enc_u(l.min as nat) + spec_enc_u(max as nat),
    }
}

pub proof fn lemma_rt_limits(bytes: Seq<u8>, pos: int, l: Limits)
    requires
        spec_has(bytes, pos, spec_enc_limits(l)),
    ensures
        crate::parser::spec_limits(bytes, pos) == Ok::<(Limits, int), DecodeError>(
            (l, pos + spec_enc_limits(l).len()),
        ),
{
    match l.max {
        None => {
            lemma_has_split(bytes, pos, seq![0x00u8], spec_enc_u(l.min as nat));
            lemma_has_byte(bytes, pos, 0x00u8);
            lemma_u32_round_trip(bytes, pos + 1, l.min);
        },
        Some(max) => {
            lemma_has_split(bytes, pos, seq![0x01u8] + spec_enc_u(l.min as nat), spec_enc_u(max as nat));
            lemma_has_split(bytes, pos, seq![0x01u8], spec_enc_u(l.min as nat));
            lemma_has_byte(bytes, pos, 0x01u8);
            lemma_u32_round_trip(bytes, pos + 1, l.min);
            lemma_u32_round_trip(bytes, pos + 1 + spec_enc_u(l.min as nat).len(), max);
        },
    }
}

/// The bytes of a table type.
pub open spec fn spec_enc_tabletype(t: TableType) -> Seq<u8> {
    spec_enc_reftype(t.reftype) + spec_enc_limits(t.limits)
}

pub proof fn lemma_rt_tabletype(bytes: Seq<u8>, pos: int, t: TableType)
    requires
        spec_has(bytes, pos, spec_enc_tabletype(t)),
    ensures
        crate::parser::spec_tabletype(bytes, pos) == Ok::<(TableType, int), DecodeError>(
            (t, pos + spec_enc_tabletype(t).len()),
        ),
{
    lemma_has_split(bytes, pos, spec_enc_reftype(t.reftype), spec_enc_limits(t.limits));
    lemma_rt_reftype(bytes, pos, t.reftype);
    lemma_rt_limits(bytes, pos + 1, t.limits);
}

/// The bytes of table types, one after the other.
pub open spec fn spec_enc_tabletypes(items: Seq<TableType>) -> Seq<u8>
    decreases items.len(),
{
    if items.len() == 0 {
        Seq::empty()
    } else {
        spec_enc_tabletype(items[0]) + spec_enc_tabletypes(items.drop_first())
    }
}

/// Decoding the bytes of table types gives them back.
pub proof fn lemma_rt_tabletypes(bytes: Seq<u8>, pos: int, items: Seq<TableType>)
    requires
        spec_has(bytes, pos, spec_enc_tabletypes(items)),
    ensures
        crate::parser::spec_tabletypes(bytes, pos, items.len()) == Ok::<(Seq<TableType>, int), DecodeError>(
            (items, pos + spec_enc_tabletypes(items).len()),
        ),
    decreases items.len(),
{
    if items.len() > 0 {
        let rest = items.drop_first();
        lemma_has_split(bytes, pos, spec_enc_tabletype(items[0]), spec_enc_tabletypes(rest));
        lemma_rt_tabletype(bytes, pos, items[0]);
        assert forall|i: int| 0 <= i < rest.len() implies #[trigger] rest[i] == items[i + 1] by {}
        lemma_rt_tabletypes(bytes, pos + spec_enc_tabletype(items[0]).len(), rest);
        assert(seq![items[0]] + rest =~= items);
        assert(rest.len() == items.len() - 1);
    } else {
        assert(items =~= Seq::<TableType>::empty());
    }
}

/// The bytes of a memory type.
pub open spec fn spec_enc_memtype(t: MemType) -> Seq<u8> {
    spec_enc_limits(t.limits)
}

pub proof fn lemma_rt_memtype(bytes: Seq<u8>, pos: int, t: MemType)
    requires
        spec_has(bytes, pos, spec_enc_memtype(t)),
    ensures
        crate::parser::spec_memtype(bytes, pos) == Ok::<(MemType, int), DecodeError>(
            (t, pos + spec_enc_memtype(t).len()),
        ),
{
    lemma_rt_limits(bytes, pos, t.limits);
}

/// The bytes of memory types, one after the other.
pub open spec fn spec_enc_memtypes(items: Seq<MemType>) -> Seq<u8>
    decreases items.len(),
{
    if items.len() == 0 {
        Seq::empty()
    } else {
        spec_enc_memtype(items[0]) + spec_enc_memtypes(items.drop_first())
    }
}

/// Decoding the bytes of memory types gives them back.
pub proof fn lemma_rt_memtypes(bytes: Seq<u8>, pos: int, items: Seq<MemType>)
    requires
        spec_has(bytes, pos, spec_enc_memtypes(items)),
    ensures
        crate::parser::spec_memtypes(bytes, pos, items.len()) == Ok::<(Seq<MemType>, int), DecodeError>(
            (items, pos + spec_enc_memtypes(items).len()),
        ),
    decreases items.len(),
{
    if items.len() > 0 {
        let rest = items.drop_first();
        lemma_has_split(bytes, pos, spec_enc_memtype(items[0]), spec_enc_memtypes(rest));
        lemma_rt_memtype(bytes, pos, items[0]);
        assert forall|i: int| 0 <= i < rest.len() implies #[trigger] rest[i] == items[i + 1] by {}
        lemma_rt_memtypes(bytes, pos + spec_enc_memtype(items[0]).len(), rest);
        assert(seq![items[0]] + rest =~= items);
        assert(rest.len() == items.len() - 1);
    } else {
        assert(items =~= Seq::<MemType>::empty());
    }
}

/// The bytes of a global type.
pub open spec fn spec_enc_globaltype(t: GlobalType) -> Seq<u8> {
    seq![t.t.spec_byte(), if t.mutable { 1u8 } else { 0u8 }]
}

pub proof fn lemma_rt_globaltype(bytes: Seq<u8>, pos: int, t: GlobalType)
    requires
        spec_has(bytes, pos, spec_enc_globaltype(t)),
    ensures
        crate::parser::spec_globaltype(bytes, pos) == Ok::<(GlobalType, int), DecodeError>(
            (t, pos + spec_enc_globaltype(t).len()),
        ),
{
    let flag = if t.mutable { 1u8 } else { 0u8 };
    assert(spec_enc_globaltype(t) =~= seq![t.t.spec_byte()] + seq![flag]);
    lemma_has_split(bytes, pos, seq![t.t.spec_byte()], seq![flag]);
    lemma_has_byte(bytes, pos, t.t.spec_byte());
    lemma_has_byte(bytes, pos + 1, flag);
}

/// The bytes of a block type.
pub open spec fn spec_enc_blocktype(bt: BlockType) -> Seq<u8> {
    match bt {
        BlockType::Empty => seq![0x40u8],
        BlockType::Inline(t) => seq![t.spec_byte()],
        BlockType::Type(idx) => spec_enc_s(idx.0 as int),
    }
}

/// The first byte of a signed number that is not negative is none of the
/// bytes that stand for the empty block type or for a value type.
pub proof fn lemma_enc_s_first(v: int)
    requires
        v >= 0,
    ensures
        spec_enc_s(v).len() >= 1,
        spec_enc_s(v)[0] != 0x40,
        valtype_of_byte(spec_enc_s(v)[0]) is None,
{
}

pub proof fn lemma_rt_blocktype(bytes: Seq<u8>, pos: int, bt: BlockType)
    requires
        spec_has(bytes, pos, spec_enc_blocktype(bt)),
    ensures
        crate::parser::spec_blocktype(bytes, pos) == Ok::<(BlockType, int), DecodeError>(
            (bt, pos + spec_enc_blocktype(bt).len()),
        ),
        spec_enc_blocktype(bt).len() >= 1,
{
    match bt {
        BlockType::Empty => {
            lemma_has_byte(bytes, pos, 0x40u8);
        },
        BlockType::Inline(t) => {
            lemma_has_byte(bytes, pos, t.spec_byte());
        },
        BlockType::Type(idx) => {
            lemma_enc_s_first(idx.0 as int);
            lemma_signed_round_trip(bytes, pos, idx.0 as int, 5, 33);
            let enc = spec_enc_s(idx.0 as int);
            assert(bytes.subrange(pos, pos + enc.len())[0] == enc[0]);
        },
    }
}

/// The bytes of the immediate of a load or store.
pub open spec fn spec_enc_memarg(m: MemArg) -> Seq<u8> {
    spec_enc_u(m.align as nat) + spec_enc_u(m.offset as nat)
}

pub proof fn lemma_rt_memarg(bytes: Seq<u8>, pos: int, m: MemArg)
    requires
        spec_has(bytes, pos, spec_enc_memarg(m)),
    ensures
        crate::parser::spec_memarg(bytes, pos) == Ok::<(MemArg, int), DecodeError>(
            (m, pos + spec_enc_memarg(m).len()),
        ),
{
    lemma_has_split(bytes, pos, spec_enc_u(m.align as nat), spec_enc_u(m.offset as nat));
    lemma_u32_round_trip(bytes, pos, m.align);
    lemma_u32_round_trip(bytes, pos + spec_enc_u(m.align as nat).len(), m.offset);
}

/// Counted bytes: their number and the bytes.
pub open spec fn spec_enc_blob(b: Seq<u8>) -> Seq<u8> {
    spec_enc_u(b.len()) + b
}

pub proof fn lemma_rt_blob(bytes: Seq<u8>, pos: int, b: Seq<u8>)
    requires
        b.len() <= u32::MAX,
        spec_has(bytes, pos, spec_enc_blob(b)),
    ensures
        crate::parser::spec_blob(bytes, pos) == Ok::<(Seq<u8>, int), DecodeError>(
            (b, pos + spec_enc_blob(b).len()),
        ),
{
    lemma_has_split(bytes, pos, spec_enc_u(b.len()), b);
    lemma_u32_round_trip(bytes, pos, b.len() as u32);
}

/// Whether a name can be written: its bytes can be counted in 32 bits.
pub open spec fn spec_ok_name(name: Seq<char>) -> bool {
    encode_utf8(name).len() <= u32::MAX
}

/// The bytes of a name: its bytes in UTF-8, counted.
pub open spec fn spec_enc_name(name: Seq<char>) -> Seq<u8> {
    spec_enc_blob(encode_utf8(name))
}

pub proof fn lemma_rt_name(bytes: Seq<u8>, pos: int, name: Seq<char>)
    requires
        spec_ok_name(name),
        spec_has(bytes, pos, spec_enc_name(name)),
    ensures
        crate::parser::spec_name(bytes, pos) == Ok::<(Seq<char>, int), DecodeError>(
            (name, pos + spec_enc_name(name).len()),
        ),
{
    lemma_rt_blob(bytes, pos, encode_utf8(name));
    vstd::utf8::encode_utf8_valid_utf8(name);
    vstd::utf8::encode_utf8_decode_utf8(name);
}

/// The bytes of a result type: the number of its types and their bytes.
pub open spec fn spec_enc_resulttype(types: Seq<ValType>) -> Seq<u8> {
    spec_enc_u(types.len()) + spec_enc_valtypes(types)
}

pub proof fn lemma_rt_resulttype(bytes: Seq<u8>, pos: int, types: Seq<ValType>)
    requires
        types.len() <= u32::MAX,
        spec_has(bytes, pos, spec_enc_resulttype(types)),
    ensures
        crate::parser::spec_resulttype(bytes, pos) == Ok::<(Seq<ValType>, int), DecodeError>(
            (types, pos + spec_enc_resulttype(types).len()),
        ),
{
    lemma_has_split(bytes, pos, spec_enc_u(types.len()), spec_enc_valtypes(types));
    lemma_u32_round_trip(bytes, pos, types.len() as u32);
    lemma_rt_valtypes(bytes, pos + spec_enc_u(types.len()).len(), types);
}

/// Whether a function type can be written.
pub open spec fn spec_ok_functype(t: (Seq<ValType>, Seq<ValType>)) -> bool {
    t.0.len() <= u32::MAX && t.1.len() <= u32::MAX
}

/// The bytes of a function type.
pub open spec fn spec_enc_functype(t: (Seq<ValType>, Seq<ValType>)) -> Seq<u8> {
    seq![0x60u8] + spec_enc_resulttype(t.0) + spec_enc_resulttype(t.1)
}

pub proof fn lemma_rt_functype(bytes: Seq<u8>, pos: int, t: (Seq<ValType>, Seq<ValType>))
    requires
        spec_ok_functype(t),
        spec_has(bytes, pos, spec_enc_functype(t)),
    ensures
        crate::parser::spec_functype(bytes, pos) == Ok::<
            ((Seq<ValType>, Seq<ValType>), int),
            DecodeError,
        >((t, pos + spec_enc_functype(t).len())),
{
    lemma_has_split(bytes, pos, seq![0x60u8] + spec_enc_resulttype(t.0), spec_enc_resulttype(t.1));
    lemma_has_split(bytes, pos, seq![0x60u8], spec_enc_resulttype(t.0));
    lemma_has_byte(bytes, pos, 0x60u8);
    lemma_rt_resulttype(bytes, pos + 1, t.0);
    lemma_rt_resulttype(bytes, pos + 1 + spec_enc_resulttype(t.0).len(), t.1);
}

/// The bytes of function types, one after the other.
pub open spec fn spec_enc_functypes(items: Seq<(Seq<ValType>, Seq<ValType>)>) -> Seq<u8>
    decreases items.len(),
{
    if items.len() == 0 {
        Seq::empty()
    } else {
        spec_enc_functype(items[0]) + spec_enc_functypes(items.drop_first())
    }
}

/// Decoding the bytes of function types gives them back.
pub proof fn lemma_rt_functypes(bytes: Seq<u8>, pos: int, items: Seq<(Seq<ValType>, Seq<ValType>)>)
    requires
        spec_has(bytes, pos, spec_enc_functypes(items)),
        forall|i: int| 0 <= i < items.len() ==> spec_ok_functype(#[trigger] items[i]),
    ensures
        crate::parser::spec_functypes(bytes, pos, items.len()) == Ok::<(Seq<(Seq<ValType>, Seq<ValType>)>, int), DecodeError>(
            (items, pos + spec_enc_functypes(items).len()),
        ),
    decreases items.len(),
{
    if items.len() > 0 {
        let rest = items.drop_first();
        lemma_has_split(bytes, pos, spec_enc_functype(items[0]), spec_enc_functypes(rest));
        lemma_rt_functype(bytes, pos, items[0]);
        assert forall|i: int| 0 <= i < rest.len() implies #[trigger] rest[i] == items[i + 1] by {}
        lemma_rt_functypes(bytes, pos + spec_enc_functype(items[0]).len(), rest);
        assert(seq![items[0]] + rest =~= items);
        assert(rest.len() == items.len() - 1);
    } else {
        assert(items =~= Seq::<(Seq<ValType>, Seq<ValType>)>::empty());
    }
}

/// The bytes of a type index.
pub open spec fn spec_enc_typeidx(i: TypeIdx) -> Seq<u8> {
    spec_enc_u(i.0 as nat)
}

pub proof fn lemma_rt_typeidx(bytes: Seq<u8>, pos: int, i: TypeIdx)
    requires
        spec_has(bytes, pos, spec_enc_typeidx(i)),
    ensures
        crate::parser::spec_typeidx(bytes, pos) == Ok::<(TypeIdx, int), DecodeError>(
            (i, pos + spec_enc_typeidx(i).len()),
        ),
{
    lemma_u32_round_trip(bytes, pos, i.0);
}

/// The bytes of type indices, one after the other.
pub open spec fn spec_enc_typeidxs(items: Seq<TypeIdx>) -> Seq<u8>
    decreases items.len(),
{
    if items.len() == 0 {
        Seq::empty()
    } else {
        spec_enc_typeidx(items[0]) + spec_enc_typeidxs(items.drop_first())
    }
}

/// Decoding the bytes of type indices gives them back.
pub proof fn lemma_rt_typeidxs(bytes: Seq<u8>, pos: int, items: Seq<TypeIdx>)
    requires
        spec_has(bytes, pos, spec_enc_typeidxs(items)),
    ensures
        crate::parser::spec_typeidxs(bytes, pos, items.len()) == Ok::<(Seq<TypeIdx>, int), DecodeError>(
            (items, pos + spec_enc_typeidxs(items).len()),
        ),
    decreases items.len(),
{
    if items.len() > 0 {
        let rest = items.drop_first();
        lemma_has_split(bytes, pos, spec_enc_typeidx(items[0]), spec_enc_typeidxs(rest));
        lemma_rt_typeidx(bytes, pos, items[0]);
        assert forall|i: int| 0 <= i < rest.len() implies #[trigger] rest[i] == items[i + 1] by {}
        lemma_rt_typeidxs(bytes, pos + spec_enc_typeidx(items[0]).len(), rest);
        assert(seq![items[0]] + rest =~= items);
        assert(rest.len() == items.len() - 1);
    } else {
        assert(items =~= Seq::<TypeIdx>::empty());
    }
}

/// The bytes of a function index.
pub open spec fn spec_enc_funcidx(i: FuncIdx) -> Seq<u8> {
    spec_enc_u(i.0 as nat)
}

pub proof fn lemma_rt_funcidx(bytes: Seq<u8>, pos: int, i: FuncIdx)
    requires
        spec_has(bytes, pos, spec_enc_funcidx(i)),
    ensures
        crate::parser::spec_funcidx(bytes, pos) == Ok::<(FuncIdx, int), DecodeError>(
            (i, pos + spec_enc_funcidx(i).len()),
        ),
{
    lemma_u32_round_trip(bytes, pos, i.0);
}

/// The bytes of function indices, one after the other.
pub open spec fn spec_enc_funcidxs(items: Seq<FuncIdx>) -> Seq<u8>
    decreases items.len(),
{
    if items.len() == 0 {
        Seq::empty()
    } else {
        spec_enc_funcidx(items[0]) + spec_enc_funcidxs(items.drop_first())
    }
}

/// Decoding the bytes of function indices gives them back.
pub proof fn lemma_rt_funcidxs(bytes: Seq<u8>, pos: int, items: Seq<FuncIdx>)
    requires
        spec_has(bytes, pos, spec_enc_funcidxs(items)),
    ensures
        crate::parser::spec_funcidxs(bytes, pos, items.len()) == Ok::<(Seq<FuncIdx>, int), DecodeError>(
            (items, pos + spec_enc_funcidxs(items).len()),
        ),
    decreases items.len(),
{
    if items.len() > 0 {
        let rest = items.drop_first();
        lemma_has_split(bytes, pos, spec_enc_funcidx(items[0]), spec_enc_funcidxs(rest));
        lemma_rt_funcidx(bytes, pos, items[0]);
        assert forall|i: int| 0 <= i < rest.len() implies #[trigger] rest[i] == items[i + 1] by {}
        lemma_rt_funcidxs(bytes, pos + spec_enc_funcidx(items[0]).len(), rest);
        assert(seq![items[0]] + rest =~= items);
        assert(rest.len() == items.len() - 1);
    } else {
        assert(items =~= Seq::<FuncIdx>::empty());
    }
}

/// The bytes of a label index.
pub open spec fn spec_enc_labelidx(i: LabelIdx) -> Seq<u8> {
    spec_enc_u(i.0 as nat)
}

pub proof fn lemma_rt_labelidx(bytes: Seq<u8>, pos: int, i: LabelIdx)
    requires
        spec_has(bytes, pos, spec_enc_labelidx(i)),
    ensures
        crate::parser::spec_labelidx(bytes, pos) == Ok::<(LabelIdx, int), DecodeError>(
            (i, pos + spec_enc_labelidx(i).len()),
        ),
{
    lemma_u32_round_trip(bytes, pos, i.0);
}

/// The bytes of label indices, one after the other.
pub open spec fn spec_enc_labelidxs(items: Seq<LabelIdx>) -> Seq<u8>
    decreases items.len(),
{
    if items.len() == 0 {
        Seq::empty()
    } else {
        spec_enc_labelidx(items[0]) + spec_enc_labelidxs(items.drop_first())
    }
}

/// Decoding the bytes of label indices gives them back.
pub proof fn lemma_rt_labelidxs(bytes: Seq<u8>, pos: int, items: Seq<LabelIdx>)
    requires
        spec_has(bytes, pos, spec_enc_labelidxs(items)),
    ensures
        crate::parser::spec_labelidxs(bytes, pos, items.len()) == Ok::<(Seq<LabelIdx>, int), DecodeError>(
            (items, pos + spec_enc_labelidxs(items).len()),
        ),
    decreases items.len(),
{
    if items.len() > 0 {
        let rest = items.drop_first();
        lemma_has_split(bytes, pos, spec_enc_labelidx(items[0]), spec_enc_labelidxs(rest));
        lemma_rt_labelidx(bytes, pos, items[0]);
        assert forall|i: int| 0 <= i < rest.len() implies #[trigger] rest[i] == items[i + 1] by {}
        lemma_rt_labelidxs(bytes, pos + spec_enc_labelidx(items[0]).len(), rest);
        assert(seq![items[0]] + rest =~= items);
        assert(rest.len() == items.len() - 1);
    } else {
        assert(items =~= Seq::<LabelIdx>::empty());
    }
}

/// The bytes of what an import describes.
pub open spec fn spec_enc_import_desc(d: ImportDesc) -> Seq<u8> {
    match d {
        ImportDesc::Func(t) => seq![0x00u8] + spec_enc_typeidx(t),
        ImportDesc::Table(t) => seq![0x01u8] + spec_enc_tabletype(t),
        ImportDesc::Mem(t) => seq![0x02u8] + spec_enc_memtype(t),
        ImportDesc::Global(t) => seq![0x03u8] + spec_enc_globaltype(t),
    }
}

pub proof fn lemma_rt_import_desc(bytes: Seq<u8>, pos: int, d: ImportDesc)
    requires
        spec_has(bytes, pos, spec_enc_import_desc(d)),
    ensures
        crate::parser::spec_import_desc(bytes, pos) == Ok::<(ImportDesc, int), DecodeError>(
            (d, pos + spec_enc_import_desc(d).len()),
        ),
{
    match d {
        ImportDesc::Func(t) => {
            lemma_has_split(bytes, pos, seq![0x00u8], spec_enc_typeidx(t));
            lemma_has_byte(bytes, pos, 0x00u8);
            lemma_rt_typeidx(bytes, pos + 1, t);
        },
        ImportDesc::Table(t) => {
            lemma_has_split(bytes, pos, seq![0x01u8], spec_enc_tabletype(t));
            lemma_has_byte(bytes, pos, 0x01u8);
            lemma_rt_tabletype(bytes, pos + 1, t);
        },
        ImportDesc::Mem(t) => {
            lemma_has_split(bytes, pos, seq![0x02u8], spec_enc_memtype(t));
            lemma_has_byte(bytes, pos, 0x02u8);
            lemma_rt_memtype(bytes, pos + 1, t);
        },
        ImportDesc::Global(t) => {
            lemma_has_split(bytes, pos, seq![0x03u8], spec_enc_globaltype(t));
            lemma_has_byte(bytes, pos, 0x03u8);
            lemma_rt_globaltype(bytes, pos + 1, t);
        },
    }
}

/// Whether an import can be written.
pub open spec fn spec_ok_import(i: ImportView) -> bool {
    spec_ok_name(i.module) && spec_ok_name(i.nm)
}

/// The bytes of an import.
pub open spec fn spec_enc_import(i: ImportView) -> Seq<u8> {
    spec_enc_name(i.module) + spec_enc_name(i.nm) + spec_enc_import_desc(i.desc)
}

pub proof fn lemma_rt_import(bytes: Seq<u8>, pos: int, i: ImportView)
    requires
        spec_ok_import(i),
        spec_has(bytes, pos, spec_enc_import(i)),
    ensures
        crate::parser::spec_import(bytes, pos) == Ok::<(ImportView, int), DecodeError>(
            (i, pos + spec_enc_import(i).len()),
        ),
{
    lemma_has_split(bytes, pos, spec_enc_name(i.module) + spec_enc_name(i.nm), spec_enc_import_desc(i.desc));
    lemma_has_split(bytes, pos, spec_enc_name(i.module), spec_enc_name(i.nm));
    lemma_rt_name(bytes, pos, i.module);
    lemma_rt_name(bytes, pos + spec_enc_name(i.module).len(), i.nm);
    lemma_rt_import_desc(
        bytes,
        pos + spec_enc_name(i.module).len() + spec_enc_name(i.nm).len(),
        i.desc,
    );
}

/// The bytes of imports, one after the other.
pub open spec fn spec_enc_imports(items: Seq<ImportView>) -> Seq<u8>
    decreases items.len(),
{
    if items.len() == 0 {
        Seq::empty()
    } else {
        spec_enc_import(items[0]) + spec_enc_imports(items.drop_first())
    }
}

/// Decoding the bytes of imports gives them back.
pub proof fn lemma_rt_imports(bytes: Seq<u8>, pos: int, items: Seq<ImportView>)
    requires
        spec_has(bytes, pos, spec_enc_imports(items)),
        forall|i: int| 0 <= i < items.len() ==> spec_ok_import(#[trigger] items[i]),
    ensures
        crate::parser::spec_imports(bytes, pos, items.len()) == Ok::<(Seq<ImportView>, int), DecodeError>(
            (items, pos + spec_enc_imports(items).len()),
        ),
    decreases items.len(),
{
    if items.len() > 0 {
        let rest = items.drop_first();
        lemma_has_split(bytes, pos, spec_enc_import(items[0]), spec_enc_imports(rest));
        lemma_rt_import(bytes, pos, items[0]);
        assert forall|i: int| 0 <= i < rest.len() implies #[trigger] rest[i] == items[i + 1] by {}
        lemma_rt_imports(bytes, pos + spec_enc_import(items[0]).len(), rest);
        assert(seq![items[0]] + rest =~= items);
        assert(rest.len() == items.len() - 1);
    } else {
        assert(items =~= Seq::<ImportView>::empty());
    }
}

/// The bytes of what an export describes.
pub open spec fn spec_enc_export_desc(d: ExportDesc) -> Seq<u8> {
    match d {
        ExportDesc::Func(i) => seq![0x00u8] + spec_enc_u(i.0 as nat),
        ExportDesc::Table(i) => seq![0x01u8] + spec_enc_u(i.0 as nat),
        ExportDesc::Mem(i) => seq![0x02u8] + spec_enc_u(i.0 as nat),
        ExportDesc::Global(i) => seq![0x03u8] + spec_enc_u(i.0 as nat),
    }
}

pub proof fn lemma_rt_export_desc(bytes: Seq<u8>, pos: int, d: ExportDesc)
    requires
        spec_has(bytes, pos, spec_enc_export_desc(d)),
    ensures
        crate::parser::spec_export_desc(bytes, pos) == Ok::<(ExportDesc, int), DecodeError>(
            (d, pos + spec_enc_export_desc(d).len()),
        ),
{
    match d {
        ExportDesc::Func(i) => {
            lemma_has_split(bytes, pos, seq![0x00u8], spec_enc_u(i.0 as nat));
            lemma_has_byte(bytes, pos, 0x00u8);
            lemma_u32_round_trip(bytes, pos + 1, i.0);
        },
        ExportDesc::Table(i) => {
            lemma_has_split(bytes, pos, seq![0x01u8], spec_enc_u(i.0 as nat));
            lemma_has_byte(bytes, pos, 0x01u8);
            lemma_u32_round_trip(bytes, pos + 1, i.0);
        },
        ExportDesc::Mem(i) => {
            lemma_has_split(bytes, pos, seq![0x02u8], spec_enc_u(i.0 as nat));
            lemma_has_byte(bytes, pos, 0x02u8);
            lemma_u32_round_trip(bytes, pos + 1, i.0);
        },
        ExportDesc::Global(i) => {
            lemma_has_split(bytes, pos, seq![0x03u8], spec_enc_u(i.0 as nat));
            lemma_has_byte(bytes, pos, 0x03u8);
            lemma_u32_round_trip(bytes, pos + 1, i.0);
        },
    }
}

/// Whether an export can be written.
pub open spec fn spec_ok_export(e: ExportView) -> bool {
    spec_ok_name(e.name)
}

/// The bytes of an export.
pub open spec fn spec_enc_export(e: ExportView) -> Seq<u8> {
    spec_enc_name(e.name) + spec_enc_export_desc(e.desc)
}

pub proof fn lemma_rt_export(bytes: Seq<u8>, pos: int, e: ExportView)
    requires
        spec_ok_export(e),
        spec_has(bytes, pos, spec_enc_export(e)),
    ensures
        crate::parser::spec_export(bytes, pos) == Ok::<(ExportView, int), DecodeError>(
            (e, pos + spec_enc_export(e).len()),
        ),
{
    lemma_has_split(bytes, pos, spec_enc_name(e.name), spec_enc_export_desc(e.desc));
    lemma_rt_name(bytes, pos, e.name);
    lemma_rt_export_desc(bytes, pos + spec_enc_name(e.name).len(), e.desc);
}

/// The bytes of exports, one after the other.
pub open spec fn spec_enc_exports(items: Seq<ExportView>) -> Seq<u8>
    decreases items.len(),
{
    if items.len() == 0 {
        Seq::empty()
    } else {
        spec_enc_export(items[0]) + spec_enc_exports(items.drop_first())
    }
}

/// Decoding the bytes of exports gives them back.
pub proof fn lemma_rt_exports(bytes: Seq<u8>, pos: int, items: Seq<ExportView>)
    requires
        spec_has(bytes, pos, spec_enc_exports(items)),
        forall|i: int| 0 <= i < items.len() ==> spec_ok_export(#[trigger] items[i]),
    ensures
        crate::parser::spec_exports(bytes, pos, items.len()) == Ok::<(Seq<ExportView>, int), DecodeError>(
            (items, pos + spec_enc_exports(items).len()),
        ),
    decreases items.len(),
{
    if items.len() > 0 {
        let rest = items.drop_first();
        lemma_has_split(bytes, pos, spec_enc_export(items[0]), spec_enc_exports(rest));
        lemma_rt_export(bytes, pos, items[0]);
        assert forall|i: int| 0 <= i < rest.len() implies #[trigger] rest[i] == items[i + 1] by {}
        lemma_rt_exports(bytes, pos + spec_enc_export(items[0]).len(), rest);
        assert(seq![items[0]] + rest =~= items);
        assert(rest.len() == items.len() - 1);
    } else {
        assert(items =~= Seq::<ExportView>::empty());
    }
}

/// The bytes of a declaration of locals.
pub open spec fn spec_enc_local(l: Locals) -> Seq<u8> {
    spec_enc_u(l.n as nat) + spec_enc_valtype(l.t)
}

pub proof fn lemma_rt_local(bytes: Seq<u8>, pos: int, l: Locals)
    requires
        spec_has(bytes, pos, spec_enc_local(l)),
    ensures
        crate::parser::spec_local(bytes, pos) == Ok::<(Locals, int), DecodeError>(
            (l, pos + spec_enc_local(l).len()),
        ),
{
    lemma_has_split(bytes, pos, spec_enc_u(l.n as nat), spec_enc_valtype(l.t));
    lemma_u32_round_trip(bytes, pos, l.n);
    lemma_rt_valtype(bytes, pos + spec_enc_u(l.n as nat).len(), l.t);
}

/// The bytes of declarations of locals, one after the other.
pub open spec fn spec_enc_locals(items: Seq<Locals>) -> Seq<u8>
    decreases items.len(),
{
    if items.len() == 0 {
        Seq::empty()
    } else {
        spec_enc_local(items[0]) + spec_enc_locals(items.drop_first())
    }
}

/// Decoding the bytes of declarations of locals gives them back.
pub proof fn lemma_rt_locals(bytes: Seq<u8>, pos: int, items: Seq<Locals>)
    requires
        spec_has(bytes, pos, spec_enc_locals(items)),
    ensures
        crate::parser::spec_locals(bytes, pos, items.len()) == Ok::<(Seq<Locals>, int), DecodeError>(
            (items, pos + spec_enc_locals(items).len()),
        ),
    decreases items.len(),
{
    if items.len() > 0 {
        let rest = items.drop_first();
        lemma_has_split(bytes, pos, spec_enc_local(items[0]), spec_enc_locals(rest));
        lemma_rt_local(bytes, pos, items[0]);
        assert forall|i: int| 0 <= i < rest.len() implies #[trigger] rest[i] == items[i + 1] by {}
        lemma_rt_locals(bytes, pos + spec_enc_local(items[0]).len(), rest);
        assert(seq![items[0]] + rest =~= items);
        assert(rest.len() == items.len() - 1);
    } else {
        assert(items =~= Seq::<Locals>::empty());
    }
}


/// The opcode of an instruction without immediates.
pub open spec fn spec_plain_code(inst: Inst) -> Option<u8> {
    match inst {
        Inst::Unreachable => Some(0x00u8),
        Inst::Nop => Some(0x01u8),
        Inst::Return => Some(0x0Fu8),
        Inst::Drop => Some(0x1Au8),
        Inst::Select => Some(0x1Bu8),
        Inst::I32Eqz => Some(0x45u8),
        Inst::I32Compare(IntRelop::Eq) => Some(0x46u8),
        Inst::I32Compare(IntRelop::Ne) => Some(0x47u8),
        Inst::I32Compare(IntRelop::LtS) => Some(0x48u8),
        Inst::I32Compare(IntRelop::LtU) => Some(0x49u8),
        Inst::I32Compare(IntRelop::GtS) => Some(0x4Au8),
        Inst::I32Compare(IntRelop::GtU) => Some(0x4Bu8),
        Inst::I32Compare(IntRelop::LeS) => Some(0x4Cu8),
        Inst::I32Compare(IntRelop::LeU) => Some(0x4Du8),
        Inst::I32Compare(IntRelop::GeS) => Some(0x4Eu8),
        Inst::I32Compare(IntRelop::GeU) => Some(0x4Fu8),
        Inst::I64Eqz => Some(0x50u8),
        Inst::I64Compare(IntRelop::Eq) => Some(0x51u8),
        Inst::I64Compare(IntRelop::Ne) => Some(0x52u8),
        Inst::I64Compare(IntRelop::LtS) => Some(0x53u8),
        Inst::I64Compare(IntRelop::LtU) => Some(0x54u8),
        Inst::I64Compare(IntRelop::GtS) => Some(0x55u8),
        Inst::I64Compare(IntRelop::GtU) => Some(0x56u8),
        Inst::I64Compare(IntRelop::LeS) => Some(0x57u8),
        Inst::I64Compare(IntRelop::LeU) => Some(0x58u8),
        Inst::I64Compare(IntRelop::GeS) => Some(0x59u8),
        Inst::I64Compare(IntRelop::GeU) => Some(0x5Au8),
        Inst::Float(FloatOp::Compare32(FloatRelop::Eq)) => Some(0x5Bu8),
        Inst::Float(FloatOp::Compare32(FloatRelop::Ne)) => Some(0x5Cu8),
        Inst::Float(FloatOp::Compare32(FloatRelop::Lt)) => Some(0x5Du8),
        Inst::Float(FloatOp::Compare32(FloatRelop::Gt)) => Some(0x5Eu8),
        Inst::Float(FloatOp::Compare32(FloatRelop::Le)) => Some(0x5Fu8),
        Inst::Float(FloatOp::Compare32(FloatRelop::Ge)) => Some(0x60u8),
        Inst::Float(FloatOp::Compare64(FloatRelop::Eq)) => Some(0x61u8),
        Inst::Float(FloatOp::Compare64(FloatRelop::Ne)) => Some(0x62u8),
        Inst::Float(FloatOp::Compare64(FloatRelop::Lt)) => Some(0x63u8),
        Inst::Float(FloatOp::Compare64(FloatRelop::Gt)) => Some(0x64u8),
        Inst::Float(FloatOp::Compare64(FloatRelop::Le)) => Some(0x65u8),
        Inst::Float(FloatOp::Compare64(FloatRelop::Ge)) => Some(0x66u8),
        Inst::I32Unary(IntUnop::Clz) => Some(0x67u8),
        Inst::I32Unary(IntUnop::Ctz) => Some(0x68u8),
        Inst::I32Unary(IntUnop::Popcnt) => Some(0x69u8),
        Inst::I32Binary(IntBinop::Add) => Some(0x6Au8),
        Inst::I32Binary(IntBinop::Sub) => Some(0x6Bu8),
        Inst::I32Binary(IntBinop::Mul) => Some(0x6Cu8),
        Inst::I32Binary(IntBinop::DivS) => Some(0x6Du8),
        Inst::I32Binary(IntBinop::DivU) => Some(0x6Eu8),
        Inst::I32Binary(IntBinop::RemS) => Some(0x6Fu8),
        Inst::I32Binary(IntBinop::RemU) => Some(0x70u8),
        Inst::I32Binary(IntBinop::And) => Some(0x71u8),
        Inst::I32Binary(IntBinop::Or) => Some(0x72u8),
        Inst::I32Binary(IntBinop::Xor) => Some(0x73u8),
        Inst::I32Binary(IntBinop::Shl) => Some(0x74u8),
        Inst::I32Binary(IntBinop::ShrS) => Some(0x75u8),
        Inst::I32Binary(IntBinop::ShrU) => Some(0x76u8),
        Inst::I32Binary(IntBinop::Rotl) => Some(0x77u8),
        Inst::I32Binary(IntBinop::Rotr) => Some(0x78u8),
        Inst::I64Unary(IntUnop::Clz) => Some(0x79u8),
        Inst::I64Unary(IntUnop::Ctz) => Some(0x7Au8),
        Inst::I64Unary(IntUnop::Popcnt) => Some(0x7Bu8),
        Inst::I64Binary(IntBinop::Add) => Some(0x7Cu8),
        Inst::I64Binary(IntBinop::Sub) => Some(0x7Du8),
        Inst::I64Binary(IntBinop::Mul) => Some(0x7Eu8),
        Inst::I64Binary(IntBinop::DivS) => Some(0x7Fu8),
        Inst::I64Binary(IntBinop::DivU) => Some(0x80u8),
        Inst::I64Binary(IntBinop::RemS) => Some(0x81u8),
        Inst::I64Binary(IntBinop::RemU) => Some(0x82u8),
        Inst::I64Binary(IntBinop::And) => Some(0x83u8),
        Inst::I64Binary(IntBinop::Or) => Some(0x84u8),
        Inst::I64Binary(IntBinop::Xor) => Some(0x85u8),
        Inst::I64Binary(IntBinop::Shl) => Some(0x86u8),
        Inst::I64Binary(IntBinop::ShrS) => Some(0x87u8),
        Inst::I64Binary(IntBinop::ShrU) => Some(0x88u8),
        Inst::I64Binary(IntBinop::Rotl) => Some(0x89u8),
        Inst::I64Binary(IntBinop::Rotr) => Some(0x8Au8),
        Inst::Float(FloatOp::Unary32(FloatUnop::Abs)) => Some(0x8Bu8),
        Inst::Float(FloatOp::Unary32(FloatUnop::Neg)) => Some(0x8Cu8),
        Inst::Float(FloatOp::Unary32(FloatUnop::Ceil)) => Some(0x8Du8),
        Inst::Float(FloatOp::Unary32(FloatUnop::Floor)) => Some(0x8Eu8),
        Inst::Float(FloatOp::Unary32(FloatUnop::Trunc)) => Some(0x8Fu8),
        Inst::Float(FloatOp::Unary32(FloatUnop::Nearest)) => Some(0x90u8),
        Inst::Float(FloatOp::Unary32(FloatUnop::Sqrt)) => Some(0x91u8),
        Inst::Float(FloatOp::Binary32(FloatBinop::Add)) => Some(0x92u8),
        Inst::Float(FloatOp::Binary32(FloatBinop::Sub)) => Some(0x93u8),
        Inst::Float(FloatOp::Binary32(FloatBinop::Mul)) => Some(0x94u8),
        Inst::Float(FloatOp::Binary32(FloatBinop::Div)) => Some(0x95u8),
        Inst::Float(FloatOp::Binary32(FloatBinop::Min)) => Some(0x96u8),
        Inst::Float(FloatOp::Binary32(FloatBinop::Max)) => Some(0x97u8),
        Inst::Float(FloatOp::Binary32(FloatBinop::Copysign)) => Some(0x98u8),
        Inst::Float(FloatOp::Unary64(FloatUnop::Abs)) => Some(0x99u8),
        Inst::Float(FloatOp::Unary64(FloatUnop::Neg)) => Some(0x9Au8),
        Inst::Float(FloatOp::Unary64(FloatUnop::Ceil)) => Some(0x9Bu8),
        Inst::Float(FloatOp::Unary64(FloatUnop::Floor)) => Some(0x9Cu8),
        Inst::Float(FloatOp::Unary64(FloatUnop::Trunc)) => Some(0x9Du8),
        Inst::Float(FloatOp::Unary64(FloatUnop::Nearest)) => Some(0x9Eu8),
        Inst::Float(FloatOp::Unary64(FloatUnop::Sqrt)) => Some(0x9Fu8),
        Inst::Float(FloatOp::Binary64(FloatBinop::Add)) => Some(0xA0u8),
        Inst::Float(FloatOp::Binary64(FloatBinop::Sub)) => Some(0xA1u8),
        Inst::Float(FloatOp::Binary64(FloatBinop::Mul)) => Some(0xA2u8),
        Inst::Float(FloatOp::Binary64(FloatBinop::Div)) => Some(0xA3u8),
        Inst::Float(FloatOp::Binary64(FloatBinop::Min)) => Some(0xA4u8),
        Inst::Float(FloatOp::Binary64(FloatBinop::Max)) => Some(0xA5u8),
        Inst::Float(FloatOp::Binary64(FloatBinop::Copysign)) => Some(0xA6u8),
        Inst::Convert(IntConv::I32WrapI64) => Some(0xA7u8),
        Inst::Float(FloatOp::Convert(FloatConv::I32TruncF32S)) => Some(0xA8u8),
        Inst::Float(FloatOp::Convert(FloatConv::I32TruncF32U)) => Some(0xA9u8),
        Inst::Float(FloatOp::Convert(FloatConv::I32TruncF64S)) => Some(0xAAu8),
        Inst::Float(FloatOp::Convert(FloatConv::I32TruncF64U)) => Some(0xABu8),
        Inst::Convert(IntConv::I64ExtendI32S) => Some(0xACu8),
        Inst::Convert(IntConv::I64ExtendI32U) => Some(0xADu8),
        Inst::Float(FloatOp::Convert(FloatConv::I64TruncF32S)) => Some(0xAEu8),
        Inst::Float(FloatOp::Convert(FloatConv::I64TruncF32U)) => Some(0xAFu8),
        Inst::Float(FloatOp::Convert(FloatConv::I64TruncF64S)) => Some(0xB0u8),
        Inst::Float(FloatOp::Convert(FloatConv::I64TruncF64U)) => Some(0xB1u8),
        Inst::Float(FloatOp::Convert(FloatConv::F32ConvertI32S)) => Some(0xB2u8),
        Inst::Float(FloatOp::Convert(FloatConv::F32ConvertI32U)) => Some(0xB3u8),
        Inst::Float(FloatOp::Convert(FloatConv::F32ConvertI64S)) => Some(0xB4u8),
        Inst::Float(FloatOp::Convert(FloatConv::F32ConvertI64U)) => Some(0xB5u8),
        Inst::Float(FloatOp::Convert(FloatConv::F32DemoteF64)) => Some(0xB6u8),
        Inst::Float(FloatOp::Convert(FloatConv::F64ConvertI32S)) => Some(0xB7u8),
        Inst::Float(FloatOp::Convert(FloatConv::F64ConvertI32U)) => Some(0xB8u8),
        Inst::Float(FloatOp::Convert(FloatConv::F64ConvertI64S)) => Some(0xB9u8),
        Inst::Float(FloatOp::Convert(FloatConv::F64ConvertI64U)) => Some(0xBAu8),
        Inst::Float(FloatOp::Convert(FloatConv::F64PromoteF32)) => Some(0xBBu8),
        Inst::Convert(IntConv::I32ReinterpretF32) => Some(0xBCu8),
        Inst::Convert(IntConv::I64ReinterpretF64) => Some(0xBDu8),
        Inst::Convert(IntConv::F32ReinterpretI32) => Some(0xBEu8),
        Inst::Convert(IntConv::F64ReinterpretI64) => Some(0xBFu8),
        _ => None,
    }
}

/// The opcode of a load.
pub open spec fn spec_load_code(op: LoadOp) -> u8 {
    match op {
        LoadOp::I32Load => 0x28u8,
        LoadOp::I64Load => 0x29u8,
        LoadOp::F32Load => 0x2Au8,
        LoadOp::F64Load => 0x2Bu8,
        LoadOp::I32Load8S => 0x2Cu8,
        LoadOp::I32Load8U => 0x2Du8,
        LoadOp::I32Load16S => 0x2Eu8,
        LoadOp::I32Load16U => 0x2Fu8,
        LoadOp::I64Load8S => 0x30u8,
        LoadOp::I64Load8U => 0x31u8,
        LoadOp::I64Load16S => 0x32u8,
        LoadOp::I64Load16U => 0x33u8,
        LoadOp::I64Load32S => 0x34u8,
        LoadOp::I64Load32U => 0x35u8,
    }
}

/// The opcode of a store.
pub open spec fn spec_store_code(op: StoreOp) -> u8 {
    match op {
        StoreOp::I32Store => 0x36u8,
        StoreOp::I64Store => 0x37u8,
        StoreOp::F32Store => 0x38u8,
        StoreOp::F64Store => 0x39u8,
        StoreOp::I32Store8 => 0x3Au8,
        StoreOp::I32Store16 => 0x3Bu8,
        StoreOp::I64Store8 => 0x3Cu8,
        StoreOp::I64Store16 => 0x3Du8,
        StoreOp::I64Store32 => 0x3Eu8,
    }
}

/// The opcodes from 0x00 to 0x4B decode to the instructions that they
/// stand for.
#[verifier::rlimit(60)]
pub proof fn lemma_plain_code_0(inst: Inst)
    requires
        spec_plain_code(inst) matches Some(b) && 0x00 <= b <= 0x4B,
    ensures
        spec_plain(spec_plain_code(inst)->Some_0) == Some(inst),
{
    match inst {
        Inst::Unreachable => {
            assert(spec_plain(0x00u8) == Some(inst));
        },
        Inst::Nop => {
            assert(spec_plain(0x01u8) == Some(inst));
        },
        Inst::Return => {
            assert(spec_plain(0x0Fu8) == Some(inst));
        },
        Inst::Drop => {
            assert(spec_plain(0x1Au8) == Some(inst));
        },
        Inst::Select => {
            assert(spec_plain(0x1Bu8) == Some(inst));
        },
        Inst::I32Eqz => {
            assert(spec_plain(0x45u8) == Some(inst));
        },
        Inst::I32Compare(IntRelop::Eq) => {
            assert(spec_plain(0x46u8) == Some(inst));
        },
        Inst::I32Compare(IntRelop::Ne) => {
            assert(spec_plain(0x47u8) == Some(inst));
        },
        Inst::I32Compare(IntRelop::LtS) => {
            assert(spec_plain(0x48u8) == Some(inst));
        },
        Inst::I32Compare(IntRelop::LtU) => {
            assert(spec_plain(0x49u8) == Some(inst));
        },
        Inst::I32Compare(IntRelop::GtS) => {
            assert(spec_plain(0x4Au8) == Some(inst));
        },
        Inst::I32Compare(IntRelop::GtU) => {
            assert(spec_plain(0x4Bu8) == Some(inst));
        },
        _ => {},
    }
}

/// The opcodes from 0x4C to 0x57 decode to the instructions that they
/// stand for.
#[verifier::rlimit(60)]
pub proof fn lemma_plain_code_1(inst: Inst)
    requires
        spec_plain_code(inst) matches Some(b) && 0x4C <= b <= 0x57,
    ensures
        spec_plain(spec_plain_code(inst)->Some_0) == Some(inst),
{
    match inst {
        Inst::I32Compare(IntRelop::LeS) => {
            assert(spec_plain(0x4Cu8) == Some(inst));
        },
        Inst::I32Compare(IntRelop::LeU) => {
            assert(spec_plain(0x4Du8) == Some(inst));
        },
        Inst::I32Compare(IntRelop::GeS) => {
            assert(spec_plain(0x4Eu8) == Some(inst));
        },
        Inst::I32Compare(IntRelop::GeU) => {
            assert(spec_plain(0x4Fu8) == Some(inst));
        },
        Inst::I64Eqz => {
            assert(spec_plain(0x50u8) == Some(inst));
        },
        Inst::I64Compare(IntRelop::Eq) => {
            assert(spec_plain(0x51u8) == Some(inst));
        },
        Inst::I64Compare(IntRelop::Ne) => {
            assert(spec_plain(0x52u8) == Some(inst));
        },
        Inst::I64Compare(IntRelop::LtS) => {
            assert(spec_plain(0x53u8) == Some(inst));
        },
        Inst::I64Compare(IntRelop::LtU) => {
            assert(spec_plain(0x54u8) == Some(inst));
        },
        Inst::I64Compare(IntRelop::GtS) => {
            assert(spec_plain(0x55u8) == Some(inst));
        },
        Inst::I64Compare(IntRelop::GtU) => {
            assert(spec_plain(0x56u8) == Some(inst));
        },
        Inst::I64Compare(IntRelop::LeS) => {
            assert(spec_plain(0x57u8) == Some(inst));
        },
        _ => {},
    }
}

/// The opcodes from 0x58 to 0x63 decode to the instructions that they
/// stand for.
#[verifier::rlimit(60)]
pub proof fn lemma_plain_code_2(inst: Inst)
    requires
        spec_plain_code(inst) matches Some(b) && 0x58 <= b <= 0x63,
    ensures
        spec_plain(spec_plain_code(inst)->Some_0) == Some(inst),
{
    match inst {
        Inst::I64Compare(IntRelop::LeU) => {
            assert(spec_plain(0x58u8) == Some(inst));
        },
        Inst::I64Compare(IntRelop::GeS) => {
            assert(spec_plain(0x59u8) == Some(inst));
        },
        Inst::I64Compare(IntRelop::GeU) => {
            assert(spec_plain(0x5Au8) == Some(inst));
        },
        Inst::Float(FloatOp::Compare32(FloatRelop::Eq)) => {
            assert(spec_plain(0x5Bu8) == Some(inst));
        },
        Inst::Float(FloatOp::Compare32(FloatRelop::Ne)) => {
            assert(spec_plain(0x5Cu8) == Some(inst));
        },
        Inst::Float(FloatOp::Compare32(FloatRelop::Lt)) => {
            assert(spec_plain(0x5Du8) == Some(inst));
        },
        Inst::Float(FloatOp::Compare32(FloatRelop::Gt)) => {
            assert(spec_plain(0x5Eu8) == Some(inst));
        },
        Inst::Float(FloatOp::Compare32(FloatRelop::Le)) => {
            assert(spec_plain(0x5Fu8) == Some(inst));
        },
        Inst::Float(FloatOp::Compare32(FloatRelop::Ge)) => {
            assert(spec_plain(0x60u8) == Some(inst));
        },
        Inst::Float(FloatOp::Compare64(FloatRelop::Eq)) => {
            assert(spec_plain(0x61u8) == Some(inst));
        },
        Inst::Float(FloatOp::Compare64(FloatRelop::Ne)) => {
            assert(spec_plain(0x62u8) == Some(inst));
        },
        Inst::Float(FloatOp::Compare64(FloatRelop::Lt)) => {
            assert(spec_plain(0x63u8) == Some(inst));
        },
        _ => {},
    }
}

/// The opcodes from 0x64 to 0x6F decode to the instructions that they
/// stand for.
#[verifier::rlimit(60)]
pub proof fn lemma_plain_code_3(inst: Inst)
    requires
        spec_plain_code(inst) matches Some(b) && 0x64 <= b <= 0x6F,
    ensures
        spec_plain(spec_plain_code(inst)->Some_0) == Some(inst),
{
    match inst {
        Inst::Float(FloatOp::Compare64(FloatRelop::Gt)) => {
            assert(spec_plain(0x64u8) == Some(inst));
        },
        Inst::Float(FloatOp::Compare64(FloatRelop::Le)) => {
            assert(spec_plain(0x65u8) == Some(inst));
        },
        Inst::Float(FloatOp::Compare64(FloatRelop::Ge)) => {
            assert(spec_plain(0x66u8) == Some(inst));
        },
        Inst::I32Unary(IntUnop::Clz) => {
            assert(spec_plain(0x67u8) == Some(inst));
        },
        Inst::I32Unary(IntUnop::Ctz) => {
            assert(spec_plain(0x68u8) == Some(inst));
        },
        Inst::I32Unary(IntUnop::Popcnt) => {
            assert(spec_plain(0x69u8) == Some(inst));
        },
        Inst::I32Binary(IntBinop::Add) => {
            assert(spec_plain(0x6Au8) == Some(inst));
        },
        Inst::I32Binary(IntBinop::Sub) => {
            assert(spec_plain(0x6Bu8) == Some(inst));
        },
        Inst::I32Binary(IntBinop::Mul) => {
            assert(spec_plain(0x6Cu8) == Some(inst));
        },
        Inst::I32Binary(IntBinop::DivS) => {
            assert(spec_plain(0x6Du8) == Some(inst));
        },
        Inst::I32Binary(IntBinop::DivU) => {
            assert(spec_plain(0x6Eu8) == Some(inst));
        },
        Inst::I32Binary(IntBinop::RemS) => {
            assert(spec_plain(0x6Fu8) == Some(inst));
        },
        _ => {},
    }
}

/// The opcodes from 0x70 to 0x7B decode to the instructions that they
/// stand for.
#[verifier::rlimit(60)]
pub proof fn lemma_plain_code_4(inst: Inst)
    requires
        spec_plain_code(inst) matches Some(b) && 0x70 <= b <= 0x7B,
    ensures
        spec_plain(spec_plain_code(inst)->Some_0) == Some(inst),
{
    match inst {
        Inst::I32Binary(IntBinop::RemU) => {
            assert(spec_plain(0x70u8) == Some(inst));
        },
        Inst::I32Binary(IntBinop::And) => {
            assert(spec_plain(0x71u8) == Some(inst));
        },
        Inst::I32Binary(IntBinop::Or) => {
            assert(spec_plain(0x72u8) == Some(inst));
        },
        Inst::I32Binary(IntBinop::Xor) => {
            assert(spec_plain(0x73u8) == Some(inst));
        },
        Inst::I32Binary(IntBinop::Shl) => {
            assert(spec_plain(0x74u8) == Some(inst));
        },
        Inst::I32Binary(IntBinop::ShrS) => {
            assert(spec_plain(0x75u8) == Some(inst));
        },
        Inst::I32Binary(IntBinop::ShrU) => {
            assert(spec_plain(0x76u8) == Some(inst));
        },
        Inst::I32Binary(IntBinop::Rotl) => {
            assert(spec_plain(0x77u8) == Some(inst));
        },
        Inst::I32Binary(IntBinop::Rotr) => {
            assert(spec_plain(0x78u8) == Some(inst));
        },
        Inst::I64Unary(IntUnop::Clz) => {
            assert(spec_plain(0x79u8) == Some(inst));
        },
        Inst::I64Unary(IntUnop::Ctz) => {
            assert(spec_plain(0x7Au8) == Some(inst));
        },
        Inst::I64Unary(IntUnop::Popcnt) => {
            assert(spec_plain(0x7Bu8) == Some(inst));
        },
        _ => {},
    }
}

/// The opcodes from 0x7C to 0x87 decode to the instructions that they
/// stand for.
#[verifier::rlimit(60)]
pub proof fn lemma_plain_code_5(inst: Inst)
    requires
        spec_plain_code(inst) matches Some(b) && 0x7C <= b <= 0x87,
    ensures
        spec_plain(spec_plain_code(inst)->Some_0) == Some(inst),
{
    match inst {
        Inst::I64Binary(IntBinop::Add) => {
            assert(spec_plain(0x7Cu8) == Some(inst));
        },
        Inst::I64Binary(IntBinop::Sub) => {
            assert(spec_plain(0x7Du8) == Some(inst));
        },
        Inst::I64Binary(IntBinop::Mul) => {
            assert(spec_plain(0x7Eu8) == Some(inst));
        },
        Inst::I64Binary(IntBinop::DivS) => {
            assert(spec_plain(0x7Fu8) == Some(inst));
        },
        Inst::I64Binary(IntBinop::DivU) => {
            assert(spec_plain(0x80u8) == Some(inst));
        },
        Inst::I64Binary(IntBinop::RemS) => {
            assert(spec_plain(0x81u8) == Some(inst));
        },
        Inst::I64Binary(IntBinop::RemU) => {
            assert(spec_plain(0x82u8) == Some(inst));
        },
        Inst::I64Binary(IntBinop::And) => {
            assert(spec_plain(0x83u8) == Some(inst));
        },
        Inst::I64Binary(IntBinop::Or) => {
            assert(spec_plain(0x84u8) == Some(inst));
        },
        Inst::I64Binary(IntBinop::Xor) => {
            assert(spec_plain(0x85u8) == Some(inst));
        },
        Inst::I64Binary(IntBinop::Shl) => {
            assert(spec_plain(0x86u8) == Some(inst));
        },
        Inst::I64Binary(IntBinop::ShrS) => {
            assert(spec_plain(0x87u8) == Some(inst));
        },
        _ => {},
    }
}

/// The opcodes from 0x88 to 0x93 decode to the instructions that they
/// stand for.
#[verifier::rlimit(60)]
pub proof fn lemma_plain_code_6(inst: Inst)
    requires
        spec_plain_code(inst) matches Some(b) && 0x88 <= b <= 0x93,
    ensures
        spec_plain(spec_plain_code(inst)->Some_0) == Some(inst),
{
    match inst {
        Inst::I64Binary(IntBinop::ShrU) => {
            assert(spec_plain(0x88u8) == Some(inst));
        },
        Inst::I64Binary(IntBinop::Rotl) => {
            assert(spec_plain(0x89u8) == Some(inst));
        },
        Inst::I64Binary(IntBinop::Rotr) => {
            assert(spec_plain(0x8Au8) == Some(inst));
        },
        Inst::Float(FloatOp::Unary32(FloatUnop::Abs)) => {
            assert(spec_plain(0x8Bu8) == Some(inst));
        },
        Inst::Float(FloatOp::Unary32(FloatUnop::Neg)) => {
            assert(spec_plain(0x8Cu8) == Some(inst));
        },
        Inst::Float(FloatOp::Unary32(FloatUnop::Ceil)) => {
            assert(spec_plain(0x8Du8) == Some(inst));
        },
        Inst::Float(FloatOp::Unary32(FloatUnop::Floor)) => {
            assert(spec_plain(0x8Eu8) == Some(inst));
        },
        Inst::Float(FloatOp::Unary32(FloatUnop::Trunc)) => {
            assert(spec_plain(0x8Fu8) == Some(inst));
        },
        Inst::Float(FloatOp::Unary32(FloatUnop::Nearest)) => {
            assert(spec_plain(0x90u8) == Some(inst));
        },
        Inst::Float(FloatOp::Unary32(FloatUnop::Sqrt)) => {
            assert(spec_plain(0x91u8) == Some(inst));
        },
        Inst::Float(FloatOp::Binary32(FloatBinop::Add)) => {
            assert(spec_plain(0x92u8) == Some(inst));
        },
        Inst::Float(FloatOp::Binary32(FloatBinop::Sub)) => {
            assert(spec_plain(0x93u8) == Some(inst));
        },
        _ => {},
    }
}

/// The opcodes from 0x94 to 0x9F decode to the instructions that they
/// stand for.
#[verifier::rlimit(60)]
pub proof fn lemma_plain_code_7(inst: Inst)
    requires
        spec_plain_code(inst) matches Some(b) && 0x94 <= b <= 0x9F,
    ensures
        spec_plain(spec_plain_code(inst)->Some_0) == Some(inst),
{
    match inst {
        Inst::Float(FloatOp::Binary32(FloatBinop::Mul)) => {
            assert(spec_plain(0x94u8) == Some(inst));
        },
        Inst::Float(FloatOp::Binary32(FloatBinop::Div)) => {
            assert(spec_plain(0x95u8) == Some(inst));
        },
        Inst::Float(FloatOp::Binary32(FloatBinop::Min)) => {
            assert(spec_plain(0x96u8) == Some(inst));
        },
        Inst::Float(FloatOp::Binary32(FloatBinop::Max)) => {
            assert(spec_plain(0x97u8) == Some(inst));
        },
        Inst::Float(FloatOp::Binary32(FloatBinop::Copysign)) => {
            assert(spec_plain(0x98u8) == Some(inst));
        },
        Inst::Float(FloatOp::Unary64(FloatUnop::Abs)) => {
            assert(spec_plain(0x99u8) == Some(inst));
        },
        Inst::Float(FloatOp::Unary64(FloatUnop::Neg)) => {
            assert(spec_plain(0x9Au8) == Some(inst));
        },
        Inst::Float(FloatOp::Unary64(FloatUnop::Ceil)) => {
            assert(spec_plain(0x9Bu8) == Some(inst));
        },
        Inst::Float(FloatOp::Unary64(FloatUnop::Floor)) => {
            assert(spec_plain(0x9Cu8) == Some(inst));
        },
        Inst::Float(FloatOp::Unary64(FloatUnop::Trunc)) => {
            assert(spec_plain(0x9Du8) == Some(inst));
        },
        Inst::Float(FloatOp::Unary64(FloatUnop::Nearest)) => {
            assert(spec_plain(0x9Eu8) == Some(inst));
        },
        Inst::Float(FloatOp::Unary64(FloatUnop::Sqrt)) => {
            assert(spec_plain(0x9Fu8) == Some(inst));
        },
        _ => {},
    }
}

/// The opcodes from 0xA0 to 0xAB decode to the instructions that they
/// stand for.
#[verifier::rlimit(60)]
pub proof fn lemma_plain_code_8(inst: Inst)
    requires
        spec_plain_code(inst) matches Some(b) && 0xA0 <= b <= 0xAB,
    ensures
        spec_plain(spec_plain_code(inst)->Some_0) == Some(inst),
{
    match inst {
        Inst::Float(FloatOp::Binary64(FloatBinop::Add)) => {
            assert(spec_plain(0xA0u8) == Some(inst));
        },
        Inst::Float(FloatOp::Binary64(FloatBinop::Sub)) => {
            assert(spec_plain(0xA1u8) == Some(inst));
        },
        Inst::Float(FloatOp::Binary64(FloatBinop::Mul)) => {
            assert(spec_plain(0xA2u8) == Some(inst));
        },
        Inst::Float(FloatOp::Binary64(FloatBinop::Div)) => {
            assert(spec_plain(0xA3u8) == Some(inst));
        },
        Inst::Float(FloatOp::Binary64(FloatBinop::Min)) => {
            assert(spec_plain(0xA4u8) == Some(inst));
        },
        Inst::Float(FloatOp::Binary64(FloatBinop::Max)) => {
            assert(spec_plain(0xA5u8) == Some(inst));
        },
        Inst::Float(FloatOp::Binary64(FloatBinop::Copysign)) => {
            assert(spec_plain(0xA6u8) == Some(inst));
        },
        Inst::Convert(IntConv::I32WrapI64) => {
            assert(spec_plain(0xA7u8) == Some(inst));
        },
        Inst::Float(FloatOp::Convert(FloatConv::I32TruncF32S)) => {
            assert(spec_plain(0xA8u8) == Some(inst));
        },
        Inst::Float(FloatOp::Convert(FloatConv::I32TruncF32U)) => {
            assert(spec_plain(0xA9u8) == Some(inst));
        },
        Inst::Float(FloatOp::Convert(FloatConv::I32TruncF64S)) => {
            assert(spec_plain(0xAAu8) == Some(inst));
        },
        Inst::Float(FloatOp::Convert(FloatConv::I32TruncF64U)) => {
            assert(spec_plain(0xABu8) == Some(inst));
        },
        _ => {},
    }
}

/// The opcodes from 0xAC to 0xB7 decode to the instructions that they
/// stand for.
#[verifier::rlimit(60)]
pub proof fn lemma_plain_code_9(inst: Inst)
    requires
        spec_plain_code(inst) matches Some(b) && 0xAC <= b <= 0xB7,
    ensures
        spec_plain(spec_plain_code(inst)->Some_0) == Some(inst),
{
    match inst {
        Inst::Convert(IntConv::I64ExtendI32S) => {
            assert(spec_plain(0xACu8) == Some(inst));
        },
        Inst::Convert(IntConv::I64ExtendI32U) => {
            assert(spec_plain(0xADu8) == Some(inst));
        },
        Inst::Float(FloatOp::Convert(FloatConv::I64TruncF32S)) => {
            assert(spec_plain(0xAEu8) == Some(inst));
        },
        Inst::Float(FloatOp::Convert(FloatConv::I64TruncF32U)) => {
            assert(spec_plain(0xAFu8) == Some(inst));
        },
        Inst::Float(FloatOp::Convert(FloatConv::I64TruncF64S)) => {
            assert(spec_plain(0xB0u8) == Some(inst));
        },
        Inst::Float(FloatOp::Convert(FloatConv::I64TruncF64U)) => {
            assert(spec_plain(0xB1u8) == Some(inst));
        },
        Inst::Float(FloatOp::Convert(FloatConv::F32ConvertI32S)) => {
            assert(spec_plain(0xB2u8) == Some(inst));
        },
        Inst::Float(FloatOp::Convert(FloatConv::F32ConvertI32U)) => {
            assert(spec_plain(0xB3u8) == Some(inst));
        },
        Inst::Float(FloatOp::Convert(FloatConv::F32ConvertI64S)) => {
            assert(spec_plain(0xB4u8) == Some(inst));
        },
        Inst::Float(FloatOp::Convert(FloatConv::F32ConvertI64U)) => {
            assert(spec_plain(0xB5u8) == Some(inst));
        },
        Inst::Float(FloatOp::Convert(FloatConv::F32DemoteF64)) => {
            assert(spec_plain(0xB6u8) == Some(inst));
        },
        Inst::Float(FloatOp::Convert(FloatConv::F64ConvertI32S)) => {
            assert(spec_plain(0xB7u8) == Some(inst));
        },
        _ => {},
    }
}

/// The opcodes from 0xB8 to 0xBF decode to the instructions that they
/// stand for.
#[verifier::rlimit(60)]
pub proof fn lemma_plain_code_10(inst: Inst)
    requires
        spec_plain_code(inst) matches Some(b) && 0xB8 <= b <= 0xBF,
    ensures
        spec_plain(spec_plain_code(inst)->Some_0) == Some(inst),
{
    match inst {
        Inst::Float(FloatOp::Convert(FloatConv::F64ConvertI32U)) => {
            assert(spec_plain(0xB8u8) == Some(inst));
        },
        Inst::Float(FloatOp::Convert(FloatConv::F64ConvertI64S)) => {
            assert(spec_plain(0xB9u8) == Some(inst));
        },
        Inst::Float(FloatOp::Convert(FloatConv::F64ConvertI64U)) => {
            assert(spec_plain(0xBAu8) == Some(inst));
        },
        Inst::Float(FloatOp::Convert(FloatConv::F64PromoteF32)) => {
            assert(spec_plain(0xBBu8) == Some(inst));
        },
        Inst::Convert(IntConv::I32ReinterpretF32) => {
            assert(spec_plain(0xBCu8) == Some(inst));
        },
        Inst::Convert(IntConv::I64ReinterpretF64) => {
            assert(spec_plain(0xBDu8) == Some(inst));
        },
        Inst::Convert(IntConv::F32ReinterpretI32) => {
            assert(spec_plain(0xBEu8) == Some(inst));
        },
        Inst::Convert(IntConv::F64ReinterpretI64) => {
            assert(spec_plain(0xBFu8) == Some(inst));
        },
        _ => {},
    }
}

/// The opcode of an instruction without immediates is one of a few single
/// opcodes or lies between 0x45 and 0xBF.
pub proof fn lemma_plain_code_range(inst: Inst)
    requires
        spec_plain_code(inst) is Some,
    ensures
        ({
            let b = spec_plain_code(inst)->Some_0;
            b == 0x00 || b == 0x01 || b == 0x0F || b == 0x1A || b == 0x1B || 0x45 <= b <= 0xBF
        }),
        inst.deep() == InstView::Plain(inst),
{
}

/// An opcode of an instruction without immediates decodes to the
/// instruction, and is none of the opcodes that immediates follow.
pub proof fn lemma_plain_code(inst: Inst)
    requires
        spec_plain_code(inst) is Some,
    ensures
        ({
            let b = spec_plain_code(inst)->Some_0;
            &&& spec_plain(b) == Some(inst)
            &&& spec_load_op(b) is None
            &&& spec_store_op(b) is None
            &&& !(b == 0x02 || b == 0x03 || b == 0x04 || b == 0x05 || b == 0x0B || b == 0x0C || b
                == 0x0D || b == 0x0E || b == 0x10 || b == 0x11)
            &&& !(0x20 <= b <= 0x24)
            &&& !(0x3F <= b <= 0x44)
            &&& inst.deep() == InstView::Plain(inst)
        }),
{
    lemma_plain_code_range(inst);
    let b = spec_plain_code(inst)->Some_0;
    if 0x00 <= b <= 0x4B {
        lemma_plain_code_0(inst);
    } else if 0x4C <= b <= 0x57 {
        lemma_plain_code_1(inst);
    } else if 0x58 <= b <= 0x63 {
        lemma_plain_code_2(inst);
    } else if 0x64 <= b <= 0x6F {
        lemma_plain_code_3(inst);
    } else if 0x70 <= b <= 0x7B {
        lemma_plain_code_4(inst);
    } else if 0x7C <= b <= 0x87 {
        lemma_plain_code_5(inst);
    } else if 0x88 <= b <= 0x93 {
        lemma_plain_code_6(inst);
    } else if 0x94 <= b <= 0x9F {
        lemma_plain_code_7(inst);
    } else if 0xA0 <= b <= 0xAB {
        lemma_plain_code_8(inst);
    } else if 0xAC <= b <= 0xB7 {
        lemma_plain_code_9(inst);
    } else if 0xB8 <= b <= 0xBF {
        lemma_plain_code_10(inst);
    }
}

/// The opcode of a load decodes to the load, and is none of the opcodes
/// that come before the loads in the decoder's order.
pub proof fn lemma_load_code(op: LoadOp)
    ensures
        spec_load_op(spec_load_code(op)) == Some(op),
        0x28 <= spec_load_code(op) <= 0x35,
{
}

/// The opcode of a store decodes to the store, and is no opcode of a
/// load.
pub proof fn lemma_store_code(op: StoreOp)
    ensures
        spec_store_op(spec_store_code(op)) == Some(op),
        spec_load_op(spec_store_code(op)) is None,
        0x36 <= spec_store_code(op) <= 0x3E,
{
}

/// The bytes of an instruction without nested sequences and without a
/// table of labels; `None` for other instructions.
pub open spec fn spec_enc_plain(inst: Inst) -> Option<Seq<u8>> {
    match inst {
        Inst::Block(_, _) | Inst::Loop(_, _) | Inst::IfElse(_, _, _) | Inst::BreakTable(_, _) => None,
        Inst::Break(l) => Some(seq![0x0Cu8] + spec_enc_u(l.0 as nat)),
        Inst::BreakIf(l) => Some(seq![0x0Du8] + spec_enc_u(l.0 as nat)),
        Inst::Call(f) => Some(seq![0x10u8] + spec_enc_u(f.0 as nat)),
        Inst::CallIndirect(t, table) => Some(
            seq![0x11u8] + spec_enc_u(t.0 as nat) + spec_enc_u(table.0 as nat),
        ),
        Inst::LocalGet(i) => Some(seq![0x20u8] + spec_enc_u(i.0 as nat)),
        Inst::LocalSet(i) => Some(seq![0x21u8] + spec_enc_u(i.0 as nat)),
        Inst::LocalTee(i) => Some(seq![0x22u8] + spec_enc_u(i.0 as nat)),
        Inst::GlobalGet(i) => Some(seq![0x23u8] + spec_enc_u(i.0 as nat)),
        Inst::GlobalSet(i) => Some(seq![0x24u8] + spec_enc_u(i.0 as nat)),
        Inst::Load(op, m) => Some(seq![spec_load_code(op)] + spec_enc_memarg(m)),
        Inst::Store(op, m) => Some(seq![spec_store_code(op)] + spec_enc_memarg(m)),
        Inst::MemorySize => Some(seq![0x3Fu8, 0x00u8]),
        Inst::MemoryGrow => Some(seq![0x40u8, 0x00u8]),
        Inst::I32Const(v) => Some(seq![0x41u8] + spec_enc_s(v as int)),
        Inst::I64Const(v) => Some(seq![0x42u8] + spec_enc_s(v as int)),
        Inst::F32Const(v) => Some(seq![0x43u8] + spec_le_encode(v as nat, 4)),
        Inst::F64Const(v) => Some(seq![0x44u8] + spec_le_encode(v as nat, 8)),
        _ => match spec_plain_code(inst) {
            Some(b) => Some(seq![b]),
            None => None,
        },
    }
}

/// Decoding the bytes of an instruction without nested parts gives the
/// instruction back.
pub proof fn lemma_rt_plain(bytes: Seq<u8>, pos: int, inst: Inst)
    requires
        spec_enc_plain(inst) is Some,
        spec_has(bytes, pos, spec_enc_plain(inst)->Some_0),
    ensures
        spec_instr(bytes, pos) == Ok::<(InstView, int), DecodeError>(
            (InstView::Plain(inst), pos + spec_enc_plain(inst)->Some_0.len()),
        ),
        spec_enc_plain(inst)->Some_0.len() >= 1,
        spec_enc_plain(inst)->Some_0[0] != 0x0B,
        spec_enc_plain(inst)->Some_0[0] != 0x05,
{
    let enc = spec_enc_plain(inst)->Some_0;
    match inst {
        Inst::Break(l) => {
            lemma_has_split(bytes, pos, seq![0x0Cu8], spec_enc_u(l.0 as nat));
            lemma_has_byte(bytes, pos, 0x0Cu8);
            lemma_rt_labelidx(bytes, pos + 1, l);
        },
        Inst::BreakIf(l) => {
            lemma_has_split(bytes, pos, seq![0x0Du8], spec_enc_u(l.0 as nat));
            lemma_has_byte(bytes, pos, 0x0Du8);
            lemma_rt_labelidx(bytes, pos + 1, l);
        },
        Inst::Call(f) => {
            lemma_has_split(bytes, pos, seq![0x10u8], spec_enc_u(f.0 as nat));
            lemma_has_byte(bytes, pos, 0x10u8);
            lemma_rt_funcidx(bytes, pos + 1, f);
        },
        Inst::CallIndirect(t, table) => {
            lemma_has_split(bytes, pos, seq![0x11u8] + spec_enc_u(t.0 as nat), spec_enc_u(table.0 as nat));
            lemma_has_split(bytes, pos, seq![0x11u8], spec_enc_u(t.0 as nat));
            lemma_has_byte(bytes, pos, 0x11u8);
            lemma_rt_typeidx(bytes, pos + 1, t);
            lemma_u32_round_trip(bytes, pos + 1 + spec_enc_u(t.0 as nat).len(), table.0);
        },
        Inst::LocalGet(i) => {
            lemma_has_split(bytes, pos, seq![0x20u8], spec_enc_u(i.0 as nat));
            lemma_has_byte(bytes, pos, 0x20u8);
            lemma_u32_round_trip(bytes, pos + 1, i.0);
        },
        Inst::LocalSet(i) => {
            lemma_has_split(bytes, pos, seq![0x21u8], spec_enc_u(i.0 as nat));
            lemma_has_byte(bytes, pos, 0x21u8);
            lemma_u32_round_trip(bytes, pos + 1, i.0);
        },
        Inst::LocalTee(i) => {
            lemma_has_split(bytes, pos, seq![0x22u8], spec_enc_u(i.0 as nat));
            lemma_has_byte(bytes, pos, 0x22u8);
            lemma_u32_round_trip(bytes, pos + 1, i.0);
        },
        Inst::GlobalGet(i) => {
            lemma_has_split(bytes, pos, seq![0x23u8], spec_enc_u(i.0 as nat));
            lemma_has_byte(bytes, pos, 0x23u8);
            lemma_u32_round_trip(bytes, pos + 1, i.0);
        },
        Inst::GlobalSet(i) => {
            lemma_has_split(bytes, pos, seq![0x24u8], spec_enc_u(i.0 as nat));
            lemma_has_byte(bytes, pos, 0x24u8);
            lemma_u32_round_trip(bytes, pos + 1, i.0);
        },
        Inst::Load(op, m) => {
            lemma_load_code(op);
            lemma_has_split(bytes, pos, seq![spec_load_code(op)], spec_enc_memarg(m));
            lemma_has_byte(bytes, pos, spec_load_code(op));
            lemma_rt_memarg(bytes, pos + 1, m);
        },
        Inst::Store(op, m) => {
            lemma_store_code(op);
            lemma_has_split(bytes, pos, seq![spec_store_code(op)], spec_enc_memarg(m));
            lemma_has_byte(bytes, pos, spec_store_code(op));
            lemma_rt_memarg(bytes, pos + 1, m);
        },
        Inst::MemorySize => {
            assert(enc =~= seq![0x3Fu8] + seq![0x00u8]);
            lemma_has_split(bytes, pos, seq![0x3Fu8], seq![0x00u8]);
            lemma_has_byte(bytes, pos, 0x3Fu8);
            lemma_has_byte(bytes, pos + 1, 0x00u8);
        },
        Inst::MemoryGrow => {
            assert(enc =~= seq![0x40u8] + seq![0x00u8]);
            lemma_has_split(bytes, pos, seq![0x40u8], seq![0x00u8]);
            lemma_has_byte(bytes, pos, 0x40u8);
            lemma_has_byte(bytes, pos + 1, 0x00u8);
        },
        Inst::I32Const(v) => {
            lemma_has_split(bytes, pos, seq![0x41u8], spec_enc_s(v as int));
            lemma_has_byte(bytes, pos, 0x41u8);
            lemma_signed_round_trip(bytes, pos + 1, v as int, 5, 32);
        },
        Inst::I64Const(v) => {
            lemma_has_split(bytes, pos, seq![0x42u8], spec_enc_s(v as int));
            lemma_has_byte(bytes, pos, 0x42u8);
            lemma_signed_round_trip(bytes, pos + 1, v as int, 10, 64);
        },
        Inst::F32Const(v) => {
            reveal_with_fuel(spec_pow256, 5);
            lemma_has_split(bytes, pos, seq![0x43u8], spec_le_encode(v as nat, 4));
            lemma_has_byte(bytes, pos, 0x43u8);
            lemma_fixed_round_trip(bytes, pos + 1, v as u64, 4);
        },
        Inst::F64Const(v) => {
            reveal_with_fuel(spec_pow256, 9);
            lemma_has_split(bytes, pos, seq![0x44u8], spec_le_encode(v as nat, 8));
            lemma_has_byte(bytes, pos, 0x44u8);
            lemma_fixed_round_trip(bytes, pos + 1, v, 8);
        },
        _ => {
            lemma_plain_code(inst);
            lemma_has_byte(bytes, pos, spec_plain_code(inst)->Some_0);
        },
    }
}

/// Whether an instruction can be written: an instruction without nested
/// parts is one that the format knows, a table of labels can be counted
/// in 32 bits, and the instructions of nested sequences can be written.
pub open spec fn spec_ok_inst(i: InstView) -> bool
    decreases i, 0nat,
{
    match i {
        InstView::Block(_, body) => spec_ok_insts(body, 0),
        InstView::Loop(_, body) => spec_ok_insts(body, 0),
        InstView::IfElse(_, first, second) => spec_ok_insts(first, 0) && spec_ok_insts(second, 0),
        InstView::BreakTable(ls, _) => ls.len() <= u32::MAX,
        InstView::Plain(inst) => spec_enc_plain(inst) is Some,
    }
}

/// Whether the instructions of a sequence from the `k`-th on can be
/// written.
pub open spec fn spec_ok_insts(s: Seq<InstView>, k: nat) -> bool
    decreases s, s.len() - k,
{
    if k >= s.len() {
        true
    } else {
        spec_ok_inst(s[k as int]) && spec_ok_insts(s, k + 1)
    }
}

/// The bytes of an instruction.
pub open spec fn spec_enc_inst(i: InstView) -> Seq<u8>
    decreases i, 0nat,
{
    match i {
        InstView::Block(bt, body) => seq![0x02u8] + spec_enc_blocktype(bt) + spec_enc_insts(body, 0)
            + seq![0x0Bu8],
        InstView::Loop(bt, body) => seq![0x03u8] + spec_enc_blocktype(bt) + spec_enc_insts(body, 0)
            + seq![0x0Bu8],
        InstView::IfElse(bt, first, second) => if second.len() == 0 {
            seq![0x04u8] + spec_enc_blocktype(bt) + spec_enc_insts(first, 0) + seq![0x0Bu8]
        } else {
            seq![0x04u8] + spec_enc_blocktype(bt) + spec_enc_insts(first, 0) + seq![0x05u8]
                + spec_enc_insts(second, 0) + seq![0x0Bu8]
        },
        InstView::BreakTable(ls, d) => seq![0x0Eu8] + spec_enc_u(ls.len()) + spec_enc_labelidxs(ls)
            + spec_enc_labelidx(d),
        InstView::Plain(inst) => match spec_enc_plain(inst) {
            Some(b) => b,
            None => Seq::empty(),
        },
    }
}

/// The bytes of the instructions of a sequence from the `k`-th on.
pub open spec fn spec_enc_insts(s: Seq<InstView>, k: nat) -> Seq<u8>
    decreases s, s.len() - k,
{
    if k >= s.len() {
        Seq::empty()
    } else {
        spec_enc_inst(s[k as int]) + spec_enc_insts(s, k + 1)
    }
}

/// Decoding the bytes of an instruction gives the instruction back.
pub proof fn lemma_rt_inst(bytes: Seq<u8>, pos: int, i: InstView)
    requires
        spec_ok_inst(i),
        spec_has(bytes, pos, spec_enc_inst(i)),
    ensures
        spec_instr(bytes, pos) == Ok::<(InstView, int), DecodeError>(
            (i, pos + spec_enc_inst(i).len()),
        ),
        spec_enc_inst(i).len() >= 1,
        spec_enc_inst(i)[0] != 0x0B,
        spec_enc_inst(i)[0] != 0x05,
    decreases i, 0nat,
{
    match i {
        InstView::Plain(inst) => {
            lemma_rt_plain(bytes, pos, inst);
        },
        InstView::BreakTable(ls, d) => {
            let a = seq![0x0Eu8];
            let b = spec_enc_u(ls.len());
            let c = spec_enc_labelidxs(ls);
            let e = spec_enc_labelidx(d);
            lemma_has_split(bytes, pos, a + b + c, e);
            lemma_has_split(bytes, pos, a + b, c);
            lemma_has_split(bytes, pos, a, b);
            lemma_has_byte(bytes, pos, 0x0Eu8);
            lemma_u32_round_trip(bytes, pos + 1, ls.len() as u32);
            lemma_rt_labelidxs(bytes, pos + 1 + b.len(), ls);
            lemma_rt_labelidx(bytes, pos + 1 + b.len() + c.len(), d);
        },
        InstView::Block(bt, body) => {
            lemma_rt_nested(bytes, pos, 0x02u8, bt, body);
        },
        InstView::Loop(bt, body) => {
            lemma_rt_nested(bytes, pos, 0x03u8, bt, body);
        },
        InstView::IfElse(bt, first, second) => {
            if second.len() == 0 {
                lemma_rt_nested(bytes, pos, 0x04u8, bt, first);
                assert(second =~= Seq::<InstView>::empty());
            } else {
                let a = seq![0x04u8];
                let b = spec_enc_blocktype(bt);
                let c = spec_enc_insts(first, 0);
                let d = seq![0x05u8];
                let e = spec_enc_insts(second, 0);
                let f = seq![0x0Bu8];
                lemma_has_split(bytes, pos, a + b + c + d + e, f);
                lemma_has_split(bytes, pos, a + b + c + d, e);
                lemma_has_split(bytes, pos, a + b + c, d);
                lemma_has_split(bytes, pos, a + b, c);
                lemma_has_split(bytes, pos, a, b);
                lemma_has_byte(bytes, pos, 0x04u8);
                lemma_rt_blocktype(bytes, pos + 1, bt);
                let q = pos + 1 + b.len();
                lemma_has_join(bytes, q, c, d);
                lemma_rt_insts(bytes, q, first, 0, 0x05u8);
                let r = q + c.len() + 1;
                lemma_has_join(bytes, r, e, f);
                lemma_rt_insts(bytes, r, second, 0, 0x0Bu8);
                assert(first.skip(0) =~= first);
                assert(second.skip(0) =~= second);
            }
        },
    }
}

/// Where two runs of bytes stand one after the other, their join stands
/// at the place of the first.
pub proof fn lemma_has_join(bytes: Seq<u8>, pos: int, a: Seq<u8>, b: Seq<u8>)
    requires
        spec_has(bytes, pos, a),
        spec_has(bytes, pos + a.len(), b),
    ensures
        spec_has(bytes, pos, a + b),
{
    assert(bytes.subrange(pos, pos + (a + b).len()) =~= a + b) by {
        assert forall|i: int| 0 <= i < (a + b).len() implies bytes.subrange(
            pos,
            pos + (a + b).len(),
        )[i] == (a + b)[i] by {
            if i < a.len() {
                assert(bytes.subrange(pos, pos + a.len())[i] == a[i]);
            } else {
                assert(bytes.subrange(pos + a.len(), pos + a.len() + b.len())[i - a.len()] == b[i
                    - a.len()]);
            }
        }
    }
}

/// Decoding the bytes of a block, a loop, or a conditional without a
/// second sequence gives it back.
pub proof fn lemma_rt_nested(bytes: Seq<u8>, pos: int, code: u8, bt: BlockType, body: Seq<InstView>)
    requires
        code == 0x02 || code == 0x03 || code == 0x04,
        spec_ok_insts(body, 0),
        spec_has(
            bytes,
            pos,
            seq![code] + spec_enc_blocktype(bt) + spec_enc_insts(body, 0) + seq![0x0Bu8],
        ),
    ensures
        spec_instr(bytes, pos) == Ok::<(InstView, int), DecodeError>(
            (
                if code == 0x02 {
                    InstView::Block(bt, body)
                } else if code == 0x03 {
                    InstView::Loop(bt, body)
                } else {
                    InstView::IfElse(bt, body, Seq::empty())
                },
                pos + 1 + spec_enc_blocktype(bt).len() + spec_enc_insts(body, 0).len() + 1,
            ),
        ),
    decreases body, body.len() + 1,
{
    let a = seq![code];
    let b = spec_enc_blocktype(bt);
    let c = spec_enc_insts(body, 0);
    let f = seq![0x0Bu8];
    lemma_has_split(bytes, pos, a + b + c, f);
    lemma_has_split(bytes, pos, a + b, c);
    lemma_has_split(bytes, pos, a, b);
    lemma_has_byte(bytes, pos, code);
    lemma_rt_blocktype(bytes, pos + 1, bt);
    let q = pos + 1 + b.len();
    lemma_has_join(bytes, q, c, f);
    lemma_rt_insts(bytes, q, body, 0, 0x0Bu8);
    assert(body.skip(0) =~= body);
}

/// Decoding the bytes of the instructions of a sequence from the `k`-th
/// on, and of the byte that ends them, gives the instructions back.
pub proof fn lemma_rt_insts(bytes: Seq<u8>, pos: int, s: Seq<InstView>, k: nat, t: u8)
    requires
        t == 0x0B || t == 0x05,
        k <= s.len(),
        spec_ok_insts(s, k),
        spec_has(bytes, pos, spec_enc_insts(s, k) + seq![t]),
    ensures
        spec_body(bytes, pos) == Ok::<(Seq<InstView>, u8, int), DecodeError>(
            (s.skip(k as int), t, pos + spec_enc_insts(s, k).len() + 1),
        ),
    decreases s, s.len() - k,
{
    if k >= s.len() {
        lemma_has_split(bytes, pos, spec_enc_insts(s, k), seq![t]);
        lemma_has_byte(bytes, pos, t);
        assert(s.skip(k as int) =~= Seq::<InstView>::empty());
    } else {
        let head = spec_enc_inst(s[k as int]);
        let tail = spec_enc_insts(s, k + 1);
        assert((head + tail) + seq![t] =~= head + (tail + seq![t]));
        lemma_has_split(bytes, pos, head, tail + seq![t]);
        lemma_rt_inst(bytes, pos, s[k as int]);
        assert(bytes[pos] == head[0]) by {
            assert(bytes.subrange(pos, pos + head.len())[0] == head[0]);
        }
        lemma_rt_insts(bytes, pos + head.len(), s, k + 1, t);
        assert(seq![s[k as int]] + s.skip((k + 1) as int) =~= s.skip(k as int));
    }
}

/// The bytes of an expression: its instructions and the byte that ends
/// it.
pub open spec fn spec_enc_expr(s: Seq<InstView>) -> Seq<u8> {
    spec_enc_insts(s, 0) + seq![0x0Bu8]
}

pub proof fn lemma_rt_expr(bytes: Seq<u8>, pos: int, s: Seq<InstView>)
    requires
        spec_ok_insts(s, 0),
        spec_has(bytes, pos, spec_enc_expr(s)),
    ensures
        crate::parser::spec_expr(bytes, pos) == Ok::<(Seq<InstView>, int), DecodeError>(
            (s, pos + spec_enc_expr(s).len()),
        ),
{
    lemma_rt_insts(bytes, pos, s, 0, 0x0Bu8);
    assert(s.skip(0) =~= s);
}

/// Whether a global can be written.
pub open spec fn spec_ok_global(g: GlobalView) -> bool {
    spec_ok_insts(g.init, 0)
}

/// The bytes of a global.
pub open spec fn spec_enc_global(g: GlobalView) -> Seq<u8> {
    spec_enc_globaltype(g.typ) + spec_enc_expr(g.init)
}

pub proof fn lemma_rt_global(bytes: Seq<u8>, pos: int, g: GlobalView)
    requires
        spec_ok_global(g),
        spec_has(bytes, pos, spec_enc_global(g)),
    ensures
        crate::parser::spec_global(bytes, pos) == Ok::<(GlobalView, int), DecodeError>(
            (g, pos + spec_enc_global(g).len()),
        ),
{
    lemma_has_split(bytes, pos, spec_enc_globaltype(g.typ), spec_enc_expr(g.init));
    lemma_rt_globaltype(bytes, pos, g.typ);
    lemma_rt_expr(bytes, pos + spec_enc_globaltype(g.typ).len(), g.init);
}

/// The bytes of globals, one after the other.
pub open spec fn spec_enc_globals(items: Seq<GlobalView>) -> Seq<u8>
    decreases items.len(),
{
    if items.len() == 0 {
        Seq::empty()
    } else {
        spec_enc_global(items[0]) + spec_enc_globals(items.drop_first())
    }
}

/// Decoding the bytes of globals gives them back.
pub proof fn lemma_rt_globals(bytes: Seq<u8>, pos: int, items: Seq<GlobalView>)
    requires
        spec_has(bytes, pos, spec_enc_globals(items)),
        forall|i: int| 0 <= i < items.len() ==> spec_ok_global(#[trigger] items[i]),
    ensures
        crate::parser::spec_globals(bytes, pos, items.len()) == Ok::<(Seq<GlobalView>, int), DecodeError>(
            (items, pos + spec_enc_globals(items).len()),
        ),
    decreases items.len(),
{
    if items.len() > 0 {
        let rest = items.drop_first();
        lemma_has_split(bytes, pos, spec_enc_global(items[0]), spec_enc_globals(rest));
        lemma_rt_global(bytes, pos, items[0]);
        assert forall|i: int| 0 <= i < rest.len() implies #[trigger] rest[i] == items[i + 1] by {}
        lemma_rt_globals(bytes, pos + spec_enc_global(items[0]).len(), rest);
        assert(seq![items[0]] + rest =~= items);
        assert(rest.len() == items.len() - 1);
    } else {
        assert(items =~= Seq::<GlobalView>::empty());
    }
}

/// A count and as many function indices.
pub open spec fn spec_enc_funcs(init: Seq<FuncIdx>) -> Seq<u8> {
    spec_enc_u(init.len()) + spec_enc_funcidxs(init)
}

pub proof fn lemma_rt_funcs(bytes: Seq<u8>, pos: int, init: Seq<FuncIdx>)
    requires
        init.len() <= u32::MAX,
        spec_has(bytes, pos, spec_enc_funcs(init)),
    ensures
        crate::parser::spec_funcs(bytes, pos) == Ok::<(Seq<FuncIdx>, int), DecodeError>(
            (init, pos + spec_enc_funcs(init).len()),
        ),
{
    lemma_has_split(bytes, pos, spec_enc_u(init.len()), spec_enc_funcidxs(init));
    lemma_u32_round_trip(bytes, pos, init.len() as u32);
    lemma_rt_funcidxs(bytes, pos + spec_enc_u(init.len()).len(), init);
}

/// Whether an element segment can be written.
pub open spec fn spec_ok_elem(e: ElemView) -> bool {
    &&& e.typ == Reftype::Funcref
    &&& e.init.len() <= u32::MAX
    &&& e.mode matches ElemModeView::Active { offset, .. } ==> spec_ok_insts(offset, 0)
}

/// The bytes of an element segment. A segment that is active in table 0
/// has the short form.
pub open spec fn spec_enc_elem(e: ElemView) -> Seq<u8> {
    match e.mode {
        ElemModeView::Active { table, offset } => if table.0 == 0 {
            seq![0x00u8] + spec_enc_expr(offset) + spec_enc_funcs(e.init)
        } else {
            seq![0x02u8] + spec_enc_u(table.0 as nat) + spec_enc_expr(offset) + seq![0x00u8]
                + spec_enc_funcs(e.init)
        },
        ElemModeView::Passive => seq![0x01u8] + seq![0x00u8] + spec_enc_funcs(e.init),
        ElemModeView::Declarative => seq![0x03u8] + seq![0x00u8] + spec_enc_funcs(e.init),
    }
}

/// A number below 128 is written as one byte.
pub proof fn lemma_small_number(bytes: Seq<u8>, pos: int, v: u8)
    requires
        v < 128,
        spec_has(bytes, pos, seq![v]),
    ensures
        spec_u32(bytes, pos) == Ok::<(u32, int), DecodeError>((v as u32, pos + 1)),
{
    assert(spec_enc_u(v as nat) =~= seq![v]);
    lemma_u32_round_trip(bytes, pos, v as u32);
}

pub proof fn lemma_rt_elem(bytes: Seq<u8>, pos: int, e: ElemView)
    requires
        spec_ok_elem(e),
        spec_has(bytes, pos, spec_enc_elem(e)),
    ensures
        crate::parser::spec_elem(bytes, pos) == Ok::<(ElemView, int), DecodeError>(
            (e, pos + spec_enc_elem(e).len()),
        ),
{
    let funcs = spec_enc_funcs(e.init);
    match e.mode {
        ElemModeView::Active { table, offset } => {
            if table.0 == 0 {
                let a = seq![0x00u8];
                let b = spec_enc_expr(offset);
                lemma_has_split(bytes, pos, a + b, funcs);
                lemma_has_split(bytes, pos, a, b);
                lemma_small_number(bytes, pos, 0x00u8);
                lemma_rt_expr(bytes, pos + 1, offset);
                lemma_rt_funcs(bytes, pos + 1 + b.len(), e.init);
            } else {
                let a = seq![0x02u8];
                let b = spec_enc_u(table.0 as nat);
                let c = spec_enc_expr(offset);
                let d = seq![0x00u8];
                lemma_has_split(bytes, pos, a + b + c + d, funcs);
                lemma_has_split(bytes, pos, a + b + c, d);
                lemma_has_split(bytes, pos, a + b, c);
                lemma_has_split(bytes, pos, a, b);
                lemma_small_number(bytes, pos, 0x02u8);
                lemma_u32_round_trip(bytes, pos + 1, table.0);
                lemma_rt_expr(bytes, pos + 1 + b.len(), offset);
                lemma_has_byte(bytes, pos + 1 + b.len() + c.len(), 0x00u8);
                lemma_rt_funcs(bytes, pos + 1 + b.len() + c.len() + 1, e.init);
            }
        },
        ElemModeView::Passive => {
            let a = seq![0x01u8];
            let d = seq![0x00u8];
            lemma_has_split(bytes, pos, a + d, funcs);
            lemma_has_split(bytes, pos, a, d);
            lemma_small_number(bytes, pos, 0x01u8);
            lemma_has_byte(bytes, pos + 1, 0x00u8);
            lemma_rt_funcs(bytes, pos + 2, e.init);
        },
        ElemModeView::Declarative => {
            let a = seq![0x03u8];
            let d = seq![0x00u8];
            lemma_has_split(bytes, pos, a + d, funcs);
            lemma_has_split(bytes, pos, a, d);
            lemma_small_number(bytes, pos, 0x03u8);
            lemma_has_byte(bytes, pos + 1, 0x00u8);
            lemma_rt_funcs(bytes, pos + 2, e.init);
        },
    }
}

/// The bytes of element segments, one after the other.
pub open spec fn spec_enc_elems(items: Seq<ElemView>) -> Seq<u8>
    decreases items.len(),
{
    if items.len() == 0 {
        Seq::empty()
    } else {
        spec_enc_elem(items[0]) + spec_enc_elems(items.drop_first())
    }
}

/// Decoding the bytes of element segments gives them back.
pub proof fn lemma_rt_elems(bytes: Seq<u8>, pos: int, items: Seq<ElemView>)
    requires
        spec_has(bytes, pos, spec_enc_elems(items)),
        forall|i: int| 0 <= i < items.len() ==> spec_ok_elem(#[trigger] items[i]),
    ensures
        crate::parser::spec_elems(bytes, pos, items.len()) == Ok::<(Seq<ElemView>, int), DecodeError>(
            (items, pos + spec_enc_elems(items).len()),
        ),
    decreases items.len(),
{
    if items.len() > 0 {
        let rest = items.drop_first();
        lemma_has_split(bytes, pos, spec_enc_elem(items[0]), spec_enc_elems(rest));
        lemma_rt_elem(bytes, pos, items[0]);
        assert forall|i: int| 0 <= i < rest.len() implies #[trigger] rest[i] == items[i + 1] by {}
        lemma_rt_elems(bytes, pos + spec_enc_elem(items[0]).len(), rest);
        assert(seq![items[0]] + rest =~= items);
        assert(rest.len() == items.len() - 1);
    } else {
        assert(items =~= Seq::<ElemView>::empty());
    }
}

/// Whether a data segment can be written.
pub open spec fn spec_ok_data(d: DataView) -> bool {
    &&& d.init.len() <= u32::MAX
    &&& d.mode matches DatamodeView::Active { offset, .. } ==> spec_ok_insts(offset, 0)
}

/// The bytes of a data segment. A segment that is active in memory 0 has
/// the short form.
pub open spec fn spec_enc_data(d: DataView) -> Seq<u8> {
    match d.mode {
        DatamodeView::Active { memory, offset } => if memory.0 == 0 {
            seq![0x00u8] + spec_enc_expr(offset) + spec_enc_blob(d.init)
        } else {
            seq![0x02u8] + spec_enc_u(memory.0 as nat) + spec_enc_expr(offset) + spec_enc_blob(
                d.init,
            )
        },
        DatamodeView::Passive => seq![0x01u8] + spec_enc_blob(d.init),
    }
}

pub proof fn lemma_rt_data(bytes: Seq<u8>, pos: int, d: DataView)
    requires
        spec_ok_data(d),
        spec_has(bytes, pos, spec_enc_data(d)),
    ensures
        crate::parser::spec_data(bytes, pos) == Ok::<(DataView, int), DecodeError>(
            (d, pos + spec_enc_data(d).len()),
        ),
{
    let blob = spec_enc_blob(d.init);
    match d.mode {
        DatamodeView::Active { memory, offset } => {
            if memory.0 == 0 {
                let a = seq![0x00u8];
                let b = spec_enc_expr(offset);
                lemma_has_split(bytes, pos, a + b, blob);
                lemma_has_split(bytes, pos, a, b);
                lemma_small_number(bytes, pos, 0x00u8);
                lemma_rt_expr(bytes, pos + 1, offset);
                lemma_rt_blob(bytes, pos + 1 + b.len(), d.init);
            } else {
                let a = seq![0x02u8];
                let b = spec_enc_u(memory.0 as nat);
                let c = spec_enc_expr(offset);
                lemma_has_split(bytes, pos, a + b + c, blob);
                lemma_has_split(bytes, pos, a + b, c);
                lemma_has_split(bytes, pos, a, b);
                lemma_small_number(bytes, pos, 0x02u8);
                lemma_u32_round_trip(bytes, pos + 1, memory.0);
                lemma_rt_expr(bytes, pos + 1 + b.len(), offset);
                lemma_rt_blob(bytes, pos + 1 + b.len() + c.len(), d.init);
            }
        },
        DatamodeView::Passive => {
            let a = seq![0x01u8];
            lemma_has_split(bytes, pos, a, blob);
            lemma_small_number(bytes, pos, 0x01u8);
            lemma_rt_blob(bytes, pos + 1, d.init);
        },
    }
}

/// The bytes of data segments, one after the other.
pub open spec fn spec_enc_datas(items: Seq<DataView>) -> Seq<u8>
    decreases items.len(),
{
    if items.len() == 0 {
        Seq::empty()
    } else {
        spec_enc_data(items[0]) + spec_enc_datas(items.drop_first())
    }
}

/// Decoding the bytes of data segments gives them back.
pub proof fn lemma_rt_datas(bytes: Seq<u8>, pos: int, items: Seq<DataView>)
    requires
        spec_has(bytes, pos, spec_enc_datas(items)),
        forall|i: int| 0 <= i < items.len() ==> spec_ok_data(#[trigger] items[i]),
    ensures
        crate::parser::spec_datas(bytes, pos, items.len()) == Ok::<(Seq<DataView>, int), DecodeError>(
            (items, pos + spec_enc_datas(items).len()),
        ),
    decreases items.len(),
{
    if items.len() > 0 {
        let rest = items.drop_first();
        lemma_has_split(bytes, pos, spec_enc_data(items[0]), spec_enc_datas(rest));
        lemma_rt_data(bytes, pos, items[0]);
        assert forall|i: int| 0 <= i < rest.len() implies #[trigger] rest[i] == items[i + 1] by {}
        lemma_rt_datas(bytes, pos + spec_enc_data(items[0]).len(), rest);
        assert(seq![items[0]] + rest =~= items);
        assert(rest.len() == items.len() - 1);
    } else {
        assert(items =~= Seq::<DataView>::empty());
    }
}

/// The bytes of the body of a function, without their count: the
/// declarations of locals and the expression.
pub open spec fn spec_enc_func_body(f: FuncView) -> Seq<u8> {
    spec_enc_u(f.locals.len()) + spec_enc_locals(f.locals) + spec_enc_expr(f.body)
}

/// Whether the body of a function can be written.
pub open spec fn spec_ok_code(f: FuncView) -> bool {
    &&& f.locals.len() <= u32::MAX
    &&& spec_ok_insts(f.body, 0)
    &&& spec_enc_func_body(f).len() <= u32::MAX
}

/// The bytes of the body of a function: their count and the bytes.
pub open spec fn spec_enc_code(f: FuncView) -> Seq<u8> {
    spec_enc_blob(spec_enc_func_body(f))
}

pub proof fn lemma_rt_code(bytes: Seq<u8>, pos: int, f: FuncView)
    requires
        spec_ok_code(f),
        spec_has(bytes, pos, spec_enc_code(f)),
    ensures
        crate::parser::spec_code(bytes, pos, f.typ) == Ok::<(FuncView, int), DecodeError>(
            (f, pos + spec_enc_code(f).len()),
        ),
{
    let body = spec_enc_func_body(f);
    let size = spec_enc_u(body.len());
    lemma_has_split(bytes, pos, size, body);
    lemma_u32_round_trip(bytes, pos, body.len() as u32);
    let p = pos + size.len();
    let a = spec_enc_u(f.locals.len());
    let b = spec_enc_locals(f.locals);
    let c = spec_enc_expr(f.body);
    lemma_has_split(bytes, p, a + b, c);
    lemma_has_split(bytes, p, a, b);
    lemma_u32_round_trip(bytes, p, f.locals.len() as u32);
    lemma_rt_locals(bytes, p + a.len(), f.locals);
    lemma_rt_expr(bytes, p + a.len() + b.len(), f.body);
}

/// The bytes of the bodies of functions, one after the other.
pub open spec fn spec_enc_codes(funcs: Seq<FuncView>) -> Seq<u8>
    decreases funcs.len(),
{
    if funcs.len() == 0 {
        Seq::empty()
    } else {
        spec_enc_code(funcs[0]) + spec_enc_codes(funcs.drop_first())
    }
}

/// The types of functions, in order.
pub open spec fn spec_types_of(funcs: Seq<FuncView>) -> Seq<TypeIdx> {
    Seq::new(funcs.len(), |i: int| funcs[i].typ)
}

/// Decoding the bytes of the bodies of functions, with the types that the
/// function section gave them, gives the functions back.
pub proof fn lemma_rt_codes(bytes: Seq<u8>, pos: int, funcs: Seq<FuncView>, ft: Seq<TypeIdx>, k: nat)
    requires
        k + funcs.len() <= ft.len(),
        forall|i: int| 0 <= i < funcs.len() ==> (#[trigger] funcs[i]).typ == ft[k + i],
        forall|i: int| 0 <= i < funcs.len() ==> spec_ok_code(#[trigger] funcs[i]),
        spec_has(bytes, pos, spec_enc_codes(funcs)),
    ensures
        crate::parser::spec_codes(bytes, pos, funcs.len(), ft, k) == Ok::<
            (Seq<FuncView>, int),
            DecodeError,
        >((funcs, pos + spec_enc_codes(funcs).len())),
    decreases funcs.len(),
{
    if funcs.len() > 0 {
        let rest = funcs.drop_first();
        lemma_has_split(bytes, pos, spec_enc_code(funcs[0]), spec_enc_codes(rest));
        lemma_rt_code(bytes, pos, funcs[0]);
        assert forall|i: int| 0 <= i < rest.len() implies (#[trigger] rest[i]).typ == ft[k + 1 + i]
            && spec_ok_code(rest[i]) by {
            assert(rest[i] == funcs[i + 1]);
        }
        lemma_rt_codes(bytes, pos + spec_enc_code(funcs[0]).len(), rest, ft, k + 1);
        assert(seq![funcs[0]] + rest =~= funcs);
        assert(rest.len() == funcs.len() - 1);
    } else {
        assert(funcs =~= Seq::<FuncView>::empty());
    }
}

/// The bytes of a section: the byte that names it, the count of the bytes
/// of its body, and the body.
pub open spec fn spec_enc_section(id: u8, body: Seq<u8>) -> Seq<u8> {
    seq![id] + spec_enc_blob(body)
}

/// The body of a section that holds `count` entries with the bytes
/// `items`.
pub open spec fn spec_enc_counted(count: nat, items: Seq<u8>) -> Seq<u8> {
    spec_enc_u(count) + items
}

/// Whether a module can be written: what it holds can be written, and can
/// be counted in 32 bits, as can the bytes of each of its sections.
pub open spec fn spec_ok_module(m: ModuleView) -> bool {
    &&& m.types.len() <= u32::MAX
    &&& m.imports.len() <= u32::MAX
    &&& m.funcs.len() <= u32::MAX
    &&& m.tables.len() <= u32::MAX
    &&& m.mems.len() <= u32::MAX
    &&& m.globals.len() <= u32::MAX
    &&& m.exports.len() <= u32::MAX
    &&& m.elems.len() <= u32::MAX
    &&& m.datas.len() <= u32::MAX
    &&& forall|i: int| 0 <= i < m.types.len() ==> spec_ok_functype(#[trigger] m.types[i])
    &&& forall|i: int| 0 <= i < m.imports.len() ==> spec_ok_import(#[trigger] m.imports[i])
    &&& forall|i: int| 0 <= i < m.funcs.len() ==> spec_ok_code(#[trigger] m.funcs[i])
    &&& forall|i: int| 0 <= i < m.globals.len() ==> spec_ok_global(#[trigger] m.globals[i])
    &&& forall|i: int| 0 <= i < m.exports.len() ==> spec_ok_export(#[trigger] m.exports[i])
    &&& forall|i: int| 0 <= i < m.elems.len() ==> spec_ok_elem(#[trigger] m.elems[i])
    &&& forall|i: int| 0 <= i < m.datas.len() ==> spec_ok_data(#[trigger] m.datas[i])
    &&& forall|k: int| 0 <= k < 11 ==> (#[trigger] spec_section_body(m, k)).len() <= u32::MAX
}

/// The body of the `k`-th section that is written for a module.
pub open spec fn spec_section_body(m: ModuleView, k: int) -> Seq<u8> {
    if k == 0 {
        spec_enc_counted(m.types.len(), spec_enc_functypes(m.types))
    } else if k == 1 {
        spec_enc_counted(m.imports.len(), spec_enc_imports(m.imports))
    } else if k == 2 {
        spec_enc_counted(m.funcs.len(), spec_enc_typeidxs(spec_types_of(m.funcs)))
    } else if k == 3 {
        spec_enc_counted(m.tables.len(), spec_enc_tabletypes(m.tables))
    } else if k == 4 {
        spec_enc_counted(m.mems.len(), spec_enc_memtypes(m.mems))
    } else if k == 5 {
        spec_enc_counted(m.globals.len(), spec_enc_globals(m.globals))
    } else if k == 6 {
        spec_enc_counted(m.exports.len(), spec_enc_exports(m.exports))
    } else if k == 7 {
        match m.start {
            Some(f) => spec_enc_funcidx(f),
            None => Seq::empty(),
        }
    } else if k == 8 {
        spec_enc_counted(m.elems.len(), spec_enc_elems(m.elems))
    } else if k == 9 {
        spec_enc_counted(m.funcs.len(), spec_enc_codes(m.funcs))
    } else {
        spec_enc_counted(m.datas.len(), spec_enc_datas(m.datas))
    }
}

/// The byte that names the `k`-th section that is written for a module.
pub open spec fn spec_section_byte(k: int) -> u8 {
    if k == 0 {
        1
    } else if k == 1 {
        2
    } else if k == 2 {
        3
    } else if k == 3 {
        4
    } else if k == 4 {
        5
    } else if k == 5 {
        6
    } else if k == 6 {
        7
    } else if k == 7 {
        8
    } else if k == 8 {
        9
    } else if k == 9 {
        10
    } else {
        11
    }
}

/// The bytes of the `k`-th section that is written for a module. The
/// start section is written only for a module that has a start function.
pub open spec fn spec_enc_nth(m: ModuleView, k: int) -> Seq<u8> {
    if k == 7 && m.start is None {
        Seq::empty()
    } else {
        spec_enc_section(spec_section_byte(k), spec_section_body(m, k))
    }
}

/// The bytes of the sections of a module from the `k`-th on.
pub open spec fn spec_enc_sections(m: ModuleView, k: int) -> Seq<u8>
    decreases 11 - k,
{
    if k < 0 || k >= 11 {
        Seq::empty()
    } else {
        spec_enc_nth(m, k) + spec_enc_sections(m, k + 1)
    }
}

/// The bytes of a module: the magic number, the version, and the sections
/// in the order of their numbers.
pub open spec fn spec_enc_module(m: ModuleView) -> Seq<u8> {
    seq![0x00u8, 0x61u8, 0x73u8, 0x6Du8, 0x01u8, 0x00u8, 0x00u8, 0x00u8] + spec_enc_sections(m, 0)
}

/// What a module holds once its first `k` sections are read: the parts
/// that those sections give, and nothing of the others.
pub open spec fn spec_partial(m: ModuleView, k: int) -> ModuleView {
    ModuleView {
        types: if k > 0 { m.types } else { Seq::empty() },
        imports: if k > 1 { m.imports } else { Seq::empty() },
        tables: if k > 3 { m.tables } else { Seq::empty() },
        mems: if k > 4 { m.mems } else { Seq::empty() },
        globals: if k > 5 { m.globals } else { Seq::empty() },
        exports: if k > 6 { m.exports } else { Seq::empty() },
        start: if k > 7 { m.start } else { None },
        elems: if k > 8 { m.elems } else { Seq::empty() },
        funcs: if k > 9 { m.funcs } else { Seq::empty() },
        datas: if k > 10 { m.datas } else { Seq::empty() },
    }
}

/// The types that the function section gave, once the first `k` sections
/// are read.
pub open spec fn spec_partial_types(m: ModuleView, k: int) -> Seq<TypeIdx> {
    if k > 2 {
        spec_types_of(m.funcs)
    } else {
        Seq::empty()
    }
}

/// Decoding section 0 of a module, after the sections before it, gives
/// what the module holds of that section.
pub proof fn lemma_rt_section_0(bytes: Seq<u8>, pos: int, m: ModuleView)
    requires
        spec_ok_module(m),
        spec_has(bytes, pos, spec_enc_nth(m, 0)),
    ensures
        spec_one_section(bytes, pos, spec_partial(m, 0), spec_partial_types(m, 0)) == Ok::<
            (ModuleView, Seq<TypeIdx>, int),
            DecodeError,
        >((spec_partial(m, 1), spec_partial_types(m, 1), pos + spec_enc_nth(m, 0).len())),
        spec_enc_nth(m, 0).len() >= 1,
{
    let id = spec_section_byte(0);
    let body = spec_section_body(m, 0);
    let size = spec_enc_u(body.len());
    lemma_has_split(bytes, pos, seq![id], spec_enc_blob(body));
    lemma_has_byte(bytes, pos, id);
    lemma_has_split(bytes, pos + 1, size, body);
    lemma_u32_round_trip(bytes, pos + 1, body.len() as u32);
    let p = pos + 1 + size.len();
    let c = spec_enc_u(m.types.len());
    let items = spec_enc_functypes(m.types);
    lemma_has_split(bytes, p, c, items);
    lemma_u32_round_trip(bytes, p, m.types.len() as u32);
    let q = p + c.len();
    lemma_rt_functypes(bytes, q, m.types);
    assert(Seq::<(Seq<ValType>, Seq<ValType>)>::empty() + m.types =~= m.types);
}

/// Decoding section 1 of a module, after the sections before it, gives
/// what the module holds of that section.
pub proof fn lemma_rt_section_1(bytes: Seq<u8>, pos: int, m: ModuleView)
    requires
        spec_ok_module(m),
        spec_has(bytes, pos, spec_enc_nth(m, 1)),
    ensures
        spec_one_section(bytes, pos, spec_partial(m, 1), spec_partial_types(m, 1)) == Ok::<
            (ModuleView, Seq<TypeIdx>, int),
            DecodeError,
        >((spec_partial(m, 2), spec_partial_types(m, 2), pos + spec_enc_nth(m, 1).len())),
        spec_enc_nth(m, 1).len() >= 1,
{
    let id = spec_section_byte(1);
    let body = spec_section_body(m, 1);
    let size = spec_enc_u(body.len());
    lemma_has_split(bytes, pos, seq![id], spec_enc_blob(body));
    lemma_has_byte(bytes, pos, id);
    lemma_has_split(bytes, pos + 1, size, body);
    lemma_u32_round_trip(bytes, pos + 1, body.len() as u32);
    let p = pos + 1 + size.len();
    let c = spec_enc_u(m.imports.len());
    let items = spec_enc_imports(m.imports);
    lemma_has_split(bytes, p, c, items);
    lemma_u32_round_trip(bytes, p, m.imports.len() as u32);
    let q = p + c.len();
    lemma_rt_imports(bytes, q, m.imports);
    assert(Seq::<ImportView>::empty() + m.imports =~= m.imports);
}

/// Decoding section 2 of a module, after the sections before it, gives
/// what the module holds of that section.
pub proof fn lemma_rt_section_2(bytes: Seq<u8>, pos: int, m: ModuleView)
    requires
        spec_ok_module(m),
        spec_has(bytes, pos, spec_enc_nth(m, 2)),
    ensures
        spec_one_section(bytes, pos, spec_partial(m, 2), spec_partial_types(m, 2)) == Ok::<
            (ModuleView, Seq<TypeIdx>, int),
            DecodeError,
        >((spec_partial(m, 3), spec_partial_types(m, 3), pos + spec_enc_nth(m, 2).len())),
        spec_enc_nth(m, 2).len() >= 1,
{
    let id = spec_section_byte(2);
    let body = spec_section_body(m, 2);
    let size = spec_enc_u(body.len());
    lemma_has_split(bytes, pos, seq![id], spec_enc_blob(body));
    lemma_has_byte(bytes, pos, id);
    lemma_has_split(bytes, pos + 1, size, body);
    lemma_u32_round_trip(bytes, pos + 1, body.len() as u32);
    let p = pos + 1 + size.len();
    let c = spec_enc_u(m.funcs.len());
    let items = spec_enc_typeidxs(spec_types_of(m.funcs));
    lemma_has_split(bytes, p, c, items);
    lemma_u32_round_trip(bytes, p, m.funcs.len() as u32);
    let q = p + c.len();
    lemma_rt_typeidxs(bytes, q, spec_types_of(m.funcs));
    assert(Seq::<TypeIdx>::empty() + spec_types_of(m.funcs) =~= spec_types_of(m.funcs));
}

/// Decoding section 3 of a module, after the sections before it, gives
/// what the module holds of that section.
pub proof fn lemma_rt_section_3(bytes: Seq<u8>, pos: int, m: ModuleView)
    requires
        spec_ok_module(m),
        spec_has(bytes, pos, spec_enc_nth(m, 3)),
    ensures
        spec_one_section(bytes, pos, spec_partial(m, 3), spec_partial_types(m, 3)) == Ok::<
            (ModuleView, Seq<TypeIdx>, int),
            DecodeError,
        >((spec_partial(m, 4), spec_partial_types(m, 4), pos + spec_enc_nth(m, 3).len())),
        spec_enc_nth(m, 3).len() >= 1,
{
    let id = spec_section_byte(3);
    let body = spec_section_body(m, 3);
    let size = spec_enc_u(body.len());
    lemma_has_split(bytes, pos, seq![id], spec_enc_blob(body));
    lemma_has_byte(bytes, pos, id);
    lemma_has_split(bytes, pos + 1, size, body);
    lemma_u32_round_trip(bytes, pos + 1, body.len() as u32);
    let p = pos + 1 + size.len();
    let c = spec_enc_u(m.tables.len());
    let items = spec_enc_tabletypes(m.tables);
    lemma_has_split(bytes, p, c, items);
    lemma_u32_round_trip(bytes, p, m.tables.len() as u32);
    let q = p + c.len();
    lemma_rt_tabletypes(bytes, q, m.tables);
    assert(Seq::<TableType>::empty() + m.tables =~= m.tables);
}

/// Decoding section 4 of a module, after the sections before it, gives
/// what the module holds of that section.
pub proof fn lemma_rt_section_4(bytes: Seq<u8>, pos: int, m: ModuleView)
    requires
        spec_ok_module(m),
        spec_has(bytes, pos, spec_enc_nth(m, 4)),
    ensures
        spec_one_section(bytes, pos, spec_partial(m, 4), spec_partial_types(m, 4)) == Ok::<
            (ModuleView, Seq<TypeIdx>, int),
            DecodeError,
        >((spec_partial(m, 5), spec_partial_types(m, 5), pos + spec_enc_nth(m, 4).len())),
        spec_enc_nth(m, 4).len() >= 1,
{
    let id = spec_section_byte(4);
    let body = spec_section_body(m, 4);
    let size = spec_enc_u(body.len());
    lemma_has_split(bytes, pos, seq![id], spec_enc_blob(body));
    lemma_has_byte(bytes, pos, id);
    lemma_has_split(bytes, pos + 1, size, body);
    lemma_u32_round_trip(bytes, pos + 1, body.len() as u32);
    let p = pos + 1 + size.len();
    let c = spec_enc_u(m.mems.len());
    let items = spec_enc_memtypes(m.mems);
    lemma_has_split(bytes, p, c, items);
    lemma_u32_round_trip(bytes, p, m.mems.len() as u32);
    let q = p + c.len();
    lemma_rt_memtypes(bytes, q, m.mems);
    assert(Seq::<MemType>::empty() + m.mems =~= m.mems);
}

/// Decoding section 5 of a module, after the sections before it, gives
/// what the module holds of that section.
pub proof fn lemma_rt_section_5(bytes: Seq<u8>, pos: int, m: ModuleView)
    requires
        spec_ok_module(m),
        spec_has(bytes, pos, spec_enc_nth(m, 5)),
    ensures
        spec_one_section(bytes, pos, spec_partial(m, 5), spec_partial_types(m, 5)) == Ok::<
            (ModuleView, Seq<TypeIdx>, int),
            DecodeError,
        >((spec_partial(m, 6), spec_partial_types(m, 6), pos + spec_enc_nth(m, 5).len())),
        spec_enc_nth(m, 5).len() >= 1,
{
    let id = spec_section_byte(5);
    let body = spec_section_body(m, 5);
    let size = spec_enc_u(body.len());
    lemma_has_split(bytes, pos, seq![id], spec_enc_blob(body));
    lemma_has_byte(bytes, pos, id);
    lemma_has_split(bytes, pos + 1, size, body);
    lemma_u32_round_trip(bytes, pos + 1, body.len() as u32);
    let p = pos + 1 + size.len();
    let c = spec_enc_u(m.globals.len());
    let items = spec_enc_globals(m.globals);
    lemma_has_split(bytes, p, c, items);
    lemma_u32_round_trip(bytes, p, m.globals.len() as u32);
    let q = p + c.len();
    lemma_rt_globals(bytes, q, m.globals);
    assert(Seq::<GlobalView>::empty() + m.globals =~= m.globals);
}

/// Decoding section 6 of a module, after the sections before it, gives
/// what the module holds of that section.
pub proof fn lemma_rt_section_6(bytes: Seq<u8>, pos: int, m: ModuleView)
    requires
        spec_ok_module(m),
        spec_has(bytes, pos, spec_enc_nth(m, 6)),
    ensures
        spec_one_section(bytes, pos, spec_partial(m, 6), spec_partial_types(m, 6)) == Ok::<
            (ModuleView, Seq<TypeIdx>, int),
            DecodeError,
        >((spec_partial(m, 7), spec_partial_types(m, 7), pos + spec_enc_nth(m, 6).len())),
        spec_enc_nth(m, 6).len() >= 1,
{
    let id = spec_section_byte(6);
    let body = spec_section_body(m, 6);
    let size = spec_enc_u(body.len());
    lemma_has_split(bytes, pos, seq![id], spec_enc_blob(body));
    lemma_has_byte(bytes, pos, id);
    lemma_has_split(bytes, pos + 1, size, body);
    lemma_u32_round_trip(bytes, pos + 1, body.len() as u32);
    let p = pos + 1 + size.len();
    let c = spec_enc_u(m.exports.len());
    let items = spec_enc_exports(m.exports);
    lemma_has_split(bytes, p, c, items);
    lemma_u32_round_trip(bytes, p, m.exports.len() as u32);
    let q = p + c.len();
    lemma_rt_exports(bytes, q, m.exports);
    assert(Seq::<ExportView>::empty() + m.exports =~= m.exports);
}

/// Decoding section 8 of a module, after the sections before it, gives
/// what the module holds of that section.
pub proof fn lemma_rt_section_8(bytes: Seq<u8>, pos: int, m: ModuleView)
    requires
        spec_ok_module(m),
        spec_has(bytes, pos, spec_enc_nth(m, 8)),
    ensures
        spec_one_section(bytes, pos, spec_partial(m, 8), spec_partial_types(m, 8)) == Ok::<
            (ModuleView, Seq<TypeIdx>, int),
            DecodeError,
        >((spec_partial(m, 9), spec_partial_types(m, 9), pos + spec_enc_nth(m, 8).len())),
        spec_enc_nth(m, 8).len() >= 1,
{
    let id = spec_section_byte(8);
    let body = spec_section_body(m, 8);
    let size = spec_enc_u(body.len());
    lemma_has_split(bytes, pos, seq![id], spec_enc_blob(body));
    lemma_has_byte(bytes, pos, id);
    lemma_has_split(bytes, pos + 1, size, body);
    lemma_u32_round_trip(bytes, pos + 1, body.len() as u32);
    let p = pos + 1 + size.len();
    let c = spec_enc_u(m.elems.len());
    let items = spec_enc_elems(m.elems);
    lemma_has_split(bytes, p, c, items);
    lemma_u32_round_trip(bytes, p, m.elems.len() as u32);
    let q = p + c.len();
    lemma_rt_elems(bytes, q, m.elems);
    assert(Seq::<ElemView>::empty() + m.elems =~= m.elems);
}

/// Decoding section 9 of a module, after the sections before it, gives
/// what the module holds of that section.
pub proof fn lemma_rt_section_9(bytes: Seq<u8>, pos: int, m: ModuleView)
    requires
        spec_ok_module(m),
        spec_has(bytes, pos, spec_enc_nth(m, 9)),
    ensures
        spec_one_section(bytes, pos, spec_partial(m, 9), spec_partial_types(m, 9)) == Ok::<
            (ModuleView, Seq<TypeIdx>, int),
            DecodeError,
        >((spec_partial(m, 10), spec_partial_types(m, 10), pos + spec_enc_nth(m, 9).len())),
        spec_enc_nth(m, 9).len() >= 1,
{
    let id = spec_section_byte(9);
    let body = spec_section_body(m, 9);
    let size = spec_enc_u(body.len());
    lemma_has_split(bytes, pos, seq![id], spec_enc_blob(body));
    lemma_has_byte(bytes, pos, id);
    lemma_has_split(bytes, pos + 1, size, body);
    lemma_u32_round_trip(bytes, pos + 1, body.len() as u32);
    let p = pos + 1 + size.len();
    let c = spec_enc_u(m.funcs.len());
    let items = spec_enc_codes(m.funcs);
    lemma_has_split(bytes, p, c, items);
    lemma_u32_round_trip(bytes, p, m.funcs.len() as u32);
    let q = p + c.len();
    lemma_rt_codes(bytes, q, m.funcs, spec_types_of(m.funcs), 0);
    assert(Seq::<FuncView>::empty() + m.funcs =~= m.funcs);
}

/// Decoding section 10 of a module, after the sections before it, gives
/// what the module holds of that section.
pub proof fn lemma_rt_section_10(bytes: Seq<u8>, pos: int, m: ModuleView)
    requires
        spec_ok_module(m),
        spec_has(bytes, pos, spec_enc_nth(m, 10)),
    ensures
        spec_one_section(bytes, pos, spec_partial(m, 10), spec_partial_types(m, 10)) == Ok::<
            (ModuleView, Seq<TypeIdx>, int),
            DecodeError,
        >((spec_partial(m, 11), spec_partial_types(m, 11), pos + spec_enc_nth(m, 10).len())),
        spec_enc_nth(m, 10).len() >= 1,
{
    let id = spec_section_byte(10);
    let body = spec_section_body(m, 10);
    let size = spec_enc_u(body.len());
    lemma_has_split(bytes, pos, seq![id], spec_enc_blob(body));
    lemma_has_byte(bytes, pos, id);
    lemma_has_split(bytes, pos + 1, size, body);
    lemma_u32_round_trip(bytes, pos + 1, body.len() as u32);
    let p = pos + 1 + size.len();
    let c = spec_enc_u(m.datas.len());
    let items = spec_enc_datas(m.datas);
    lemma_has_split(bytes, p, c, items);
    lemma_u32_round_trip(bytes, p, m.datas.len() as u32);
    let q = p + c.len();
    lemma_rt_datas(bytes, q, m.datas);
    assert(Seq::<DataView>::empty() + m.datas =~= m.datas);
}

/// Decoding the start section of a module, after the sections before it,
/// gives the start function.
pub proof fn lemma_rt_section_7(bytes: Seq<u8>, pos: int, m: ModuleView)
    requires
        spec_ok_module(m),
        m.start is Some,
        spec_has(bytes, pos, spec_enc_nth(m, 7)),
    ensures
        spec_one_section(bytes, pos, spec_partial(m, 7), spec_partial_types(m, 7)) == Ok::<
            (ModuleView, Seq<TypeIdx>, int),
            DecodeError,
        >((spec_partial(m, 8), spec_partial_types(m, 8), pos + spec_enc_nth(m, 7).len())),
        spec_enc_nth(m, 7).len() >= 1,
{
    let id = spec_section_byte(7);
    let body = spec_section_body(m, 7);
    let size = spec_enc_u(body.len());
    lemma_has_split(bytes, pos, seq![id], spec_enc_blob(body));
    lemma_has_byte(bytes, pos, id);
    lemma_has_split(bytes, pos + 1, size, body);
    lemma_u32_round_trip(bytes, pos + 1, body.len() as u32);
    lemma_rt_funcidx(bytes, pos + 1 + size.len(), m.start->Some_0);
}

/// Decoding the `k`-th section of a module, after the sections before it,
/// gives what the module holds of that section.
pub proof fn lemma_rt_section(bytes: Seq<u8>, pos: int, m: ModuleView, k: int)
    requires
        0 <= k < 11,
        spec_ok_module(m),
        !(k == 7 && m.start is None),
        spec_has(bytes, pos, spec_enc_nth(m, k)),
    ensures
        spec_one_section(bytes, pos, spec_partial(m, k), spec_partial_types(m, k)) == Ok::<
            (ModuleView, Seq<TypeIdx>, int),
            DecodeError,
        >((spec_partial(m, k + 1), spec_partial_types(m, k + 1), pos + spec_enc_nth(m, k).len())),
        spec_enc_nth(m, k).len() >= 1,
{
    if k == 0 {
        lemma_rt_section_0(bytes, pos, m);
    } else if k == 1 {
        lemma_rt_section_1(bytes, pos, m);
    } else if k == 2 {
        lemma_rt_section_2(bytes, pos, m);
    } else if k == 3 {
        lemma_rt_section_3(bytes, pos, m);
    } else if k == 4 {
        lemma_rt_section_4(bytes, pos, m);
    } else if k == 5 {
        lemma_rt_section_5(bytes, pos, m);
    } else if k == 6 {
        lemma_rt_section_6(bytes, pos, m);
    } else if k == 7 {
        lemma_rt_section_7(bytes, pos, m);
    } else if k == 8 {
        lemma_rt_section_8(bytes, pos, m);
    } else if k == 9 {
        lemma_rt_section_9(bytes, pos, m);
    } else if k == 10 {
        lemma_rt_section_10(bytes, pos, m);
    }
}

/// Decoding the sections of a module from the `k`-th on, after the
/// sections before them, gives the module.
pub proof fn lemma_rt_sections(bytes: Seq<u8>, pos: int, m: ModuleView, k: int)
    requires
        0 <= k <= 11,
        spec_ok_module(m),
        spec_has(bytes, pos, spec_enc_sections(m, k)),
        pos + spec_enc_sections(m, k).len() == bytes.len(),
    ensures
        crate::parser::spec_sections(bytes, pos, spec_partial(m, k), spec_partial_types(m, k))
            == Ok::<ModuleView, DecodeError>(m),
    decreases 11 - k,
{
    if k == 11 {
        assert(spec_partial(m, 11) == m);
    } else {
        let here = spec_enc_nth(m, k);
        let rest = spec_enc_sections(m, k + 1);
        lemma_has_split(bytes, pos, here, rest);
        if k == 7 && m.start is None {
            assert(spec_partial(m, 7) == spec_partial(m, 8));
            lemma_rt_sections(bytes, pos, m, k + 1);
        } else {
            lemma_rt_section(bytes, pos, m, k);
            lemma_rt_sections(bytes, pos + here.len(), m, k + 1);
        }
    }
}

/// Decoding the bytes of a module gives the module back. So a module
/// that was decoded and written again is read as the same module, and
/// behaves as it did.
pub proof fn lemma_module_round_trip(m: ModuleView)
    requires
        spec_ok_module(m),
    ensures
        crate::parser::spec_module(spec_enc_module(m)) == Ok::<ModuleView, DecodeError>(m),
{
    let header = seq![0x00u8, 0x61u8, 0x73u8, 0x6Du8, 0x01u8, 0x00u8, 0x00u8, 0x00u8];
    let bytes = spec_enc_module(m);
    assert(bytes.subrange(0, bytes.len() as int) =~= bytes);
    lemma_has_split(bytes, 0, header, spec_enc_sections(m, 0));
    assert(forall|i: int| 0 <= i < 8 ==> bytes[i] == header[i]) by {
        assert forall|i: int| 0 <= i < 8 implies bytes[i] == header[i] by {
            assert(bytes.subrange(0, 8)[i] == header[i]);
        }
    }
    assert(spec_partial(m, 0) == crate::parser::spec_empty_module());
    lemma_rt_sections(bytes, 8, m, 0);
}

/// Every instruction without nested parts and without a table of labels
/// can be written.
pub proof fn lemma_plain_writable(inst: Inst)
    requires
        !(inst is Block) && !(inst is Loop) && !(inst is IfElse) && !(inst is BreakTable),
    ensures
        spec_enc_plain(inst) is Some,
        inst.deep() == InstView::Plain(inst),
{
}

/// The instructions of a sequence from the `k`-th on can be written if the
/// `k`-th can and those after it can.
pub proof fn lemma_ok_insts_unfold(s: Seq<InstView>, k: nat)
    requires
        k < s.len(),
    ensures
        spec_ok_insts(s, k) == (spec_ok_inst(s[k as int]) && spec_ok_insts(s, k + 1)),
        spec_enc_insts(s, k) == spec_enc_inst(s[k as int]) + spec_enc_insts(s, k + 1),
{
}

/// Appends the bytes of an unsigned number.
pub fn write_u(out: &mut Vec<u8>, v: u64)
    ensures
        final(out)@ == old(out)@ + spec_enc_u(v as nat),
{
    let mut rest: u64 = v;
    proof {
        assert(out@ + spec_enc_u(rest as nat) =~= old(out)@ + spec_enc_u(v as nat));
    }
    while rest >= 128
        invariant
            out@ + spec_enc_u(rest as nat) == old(out)@ + spec_enc_u(v as nat),
        decreases rest,
    {
        let ghost before = out@;
        out.push((rest % 128 + 128) as u8);
        proof {
            let head = seq![(rest % 128 + 128) as u8];
            assert(before + (head + spec_enc_u((rest / 128) as nat)) =~= before.push(head[0])
                + spec_enc_u((rest / 128) as nat));
        }
        rest = rest / 128;
    }
    let ghost before = out@;
    out.push(rest as u8);
    proof {
        assert(before + spec_enc_u(rest as nat) =~= before.push(rest as u8));
    }
}

/// Appends the bytes of a signed number.
pub fn write_s(out: &mut Vec<u8>, v: i64)
    ensures
        final(out)@ == old(out)@ + spec_enc_s(v as int),
{
    let mut rest: i64 = v;
    proof {
        assert(out@ + spec_enc_s(rest as int) =~= old(out)@ + spec_enc_s(v as int));
    }
    while !(-64 <= rest && rest < 64)
        invariant
            out@ + spec_enc_s(rest as int) == old(out)@ + spec_enc_s(v as int),
        decreases (if rest >= 0 { rest as int } else { -(rest as int) }),
    {
        let ghost before = out@;
        let low: i64 = ((rest % 128) + 128) % 128;
        let next: i64 = (rest - low) / 128;
        assert(low == (rest as int) % 128 && next == (rest as int) / 128) by {
            vstd::arithmetic::div_mod::lemma_fundamental_div_mod(rest as int, 128);
            vstd::arithmetic::div_mod::lemma_fundamental_div_mod_converse(
                rest as int,
                128,
                next as int,
                low as int,
            );
        }
        out.push((low + 128) as u8);
        proof {
            let head = seq![(low + 128) as u8];
            assert(before + (head + spec_enc_s(next as int)) =~= before.push(head[0])
                + spec_enc_s(next as int));
        }
        rest = next;
    }
    let ghost before = out@;
    let low: i64 = ((rest % 128) + 128) % 128;
    assert(low == (rest as int) % 128);
    out.push(low as u8);
    proof {
        assert(before + spec_enc_s(rest as int) =~= before.push(low as u8));
    }
}

/// Appends bytes.
pub fn write_bytes(out: &mut Vec<u8>, bytes: &[u8])
    ensures
        final(out)@ == old(out)@ + bytes@,
{
    let mut i: usize = 0;
    proof {
        assert(out@ =~= old(out)@ + bytes@.take(0));
    }
    while i < bytes.len()
        invariant
            i <= bytes@.len(),
            out@ == old(out)@ + bytes@.take(i as int),
        decreases bytes@.len() - i,
    {
        out.push(bytes[i]);
        i = i + 1;
        assert(out@ =~= old(out)@ + bytes@.take(i as int));
    }
    assert(bytes@.take(i as int) =~= bytes@);
}

/// Appends the `n` low bytes of a number, least significant first.
pub fn write_fixed(out: &mut Vec<u8>, v: u64, n: usize)
    ensures
        final(out)@ == old(out)@ + spec_le_encode(v as nat, n as nat),
{
    let mut rest: u64 = v;
    let mut i: usize = 0;
    proof {
        assert(out@ + spec_le_encode(rest as nat, (n - i) as nat) =~= old(out)@ + spec_le_encode(
            v as nat,
            n as nat,
        ));
    }
    while i < n
        invariant
            i <= n,
            out@ + spec_le_encode(rest as nat, (n - i) as nat) == old(out)@ + spec_le_encode(
                v as nat,
                n as nat,
            ),
        decreases n - i,
    {
        let ghost before = out@;
        out.push((rest % 256) as u8);
        proof {
            let head = seq![(rest % 256) as u8];
            let tail = spec_le_encode((rest / 256) as nat, (n - i - 1) as nat);
            assert(before + (head + tail) =~= before.push(head[0]) + tail);
        }
        rest = rest / 256;
        i = i + 1;
    }
    proof {
        assert(out@ + spec_le_encode(rest as nat, 0) =~= out@);
    }
}

/// Appends counted bytes, if they can be counted in 32 bits.
pub fn write_blob(out: &mut Vec<u8>, bytes: &[u8]) -> (r: bool)
    ensures
        r == (bytes@.len() <= u32::MAX),
        r ==> final(out)@ == old(out)@ + spec_enc_blob(bytes@),
{
    if bytes.len() > u32::MAX as usize {
        return false;
    }
    write_u(out, bytes.len() as u64);
    write_bytes(out, bytes);
    proof {
        assert(old(out)@ + spec_enc_u(bytes@.len()) + bytes@ =~= old(out)@ + spec_enc_blob(bytes@));
    }
    true
}

/// Appends the bytes of a name, if it can be written.
pub fn write_name(out: &mut Vec<u8>, name: &String) -> (r: bool)
    ensures
        r == spec_ok_name(name@),
        r ==> final(out)@ == old(out)@ + spec_enc_name(name@),
{
    write_blob(out, name.as_str().as_bytes())
}

/// Appends the bytes of value types.
pub fn write_valtypes(out: &mut Vec<u8>, types: &Vec<ValType>)
    ensures
        final(out)@ == old(out)@ + spec_enc_valtypes(types@),
{
    let mut i: usize = 0;
    proof {
        assert(types@.skip(0) =~= types@);
    }
    while i < types.len()
        invariant
            i <= types@.len(),
            out@ + spec_enc_valtypes(types@.skip(i as int)) == old(out)@ + spec_enc_valtypes(types@),
        decreases types@.len() - i,
    {
        let ghost before = out@;
        let ghost rest = types@.skip(i as int);
        out.push(types[i].byte());
        proof {
            assert(rest.drop_first() =~= types@.skip(i + 1));
            assert(before + (spec_enc_valtype(rest[0]) + spec_enc_valtypes(rest.drop_first()))
                =~= before.push(rest[0].spec_byte()) + spec_enc_valtypes(rest.drop_first()));
        }
        i = i + 1;
    }
    proof {
        assert(out@ + spec_enc_valtypes(types@.skip(i as int)) =~= out@);
    }
}

/// Appends the bytes of a result type, if it can be written.
pub fn write_resulttype(out: &mut Vec<u8>, types: &Vec<ValType>) -> (r: bool)
    ensures
        r == (types@.len() <= u32::MAX),
        r ==> final(out)@ == old(out)@ + spec_enc_resulttype(types@),
{
    if types.len() > u32::MAX as usize {
        return false;
    }
    write_u(out, types.len() as u64);
    write_valtypes(out, types);
    proof {
        assert(old(out)@ + spec_enc_u(types@.len()) + spec_enc_valtypes(types@) =~= old(out)@
            + spec_enc_resulttype(types@));
    }
    true
}

/// Appends the bytes of limits.
pub fn write_limits(out: &mut Vec<u8>, l: Limits)
    ensures
        final(out)@ == old(out)@ + spec_enc_limits(l),
{
    match l.max {
        None => {
            out.push(0x00);
            write_u(out, l.min as u64);
            proof {
                assert(old(out)@.push(0x00u8) + spec_enc_u(l.min as nat) =~= old(out)@ + (
                seq![0x00u8] + spec_enc_u(l.min as nat)));
            }
        },
        Some(max) => {
            out.push(0x01);
            write_u(out, l.min as u64);
            write_u(out, max as u64);
            proof {
                assert(old(out)@.push(0x01u8) + spec_enc_u(l.min as nat) + spec_enc_u(max as nat)
                    =~= old(out)@ + (seq![0x01u8] + spec_enc_u(l.min as nat) + spec_enc_u(
                    max as nat,
                )));
            }
        },
    }
}

/// Appends the byte of a reference type.
pub fn write_reftype(out: &mut Vec<u8>, t: Reftype)
    ensures
        final(out)@ == old(out)@ + spec_enc_reftype(t),
{
    match t {
        Reftype::Funcref => out.push(0x70),
        Reftype::Externref => out.push(0x6F),
    }
    proof {
        assert(out@ =~= old(out)@ + spec_enc_reftype(t));
    }
}

/// Appends the bytes of a table type.
pub fn write_tabletype(out: &mut Vec<u8>, t: TableType)
    ensures
        final(out)@ == old(out)@ + spec_enc_tabletype(t),
{
    write_reftype(out, t.reftype);
    write_limits(out, t.limits);
    proof {
        assert(old(out)@ + spec_enc_reftype(t.reftype) + spec_enc_limits(t.limits) =~= old(out)@
            + spec_enc_tabletype(t));
    }
}

/// Appends the bytes of a global type.
pub fn write_globaltype(out: &mut Vec<u8>, t: GlobalType)
    ensures
        final(out)@ == old(out)@ + spec_enc_globaltype(t),
{
    out.push(t.t.byte());
    out.push(if t.mutable { 1 } else { 0 });
    proof {
        assert(out@ =~= old(out)@ + spec_enc_globaltype(t));
    }
}

/// Appends the bytes of a block type.
pub fn write_blocktype(out: &mut Vec<u8>, bt: BlockType)
    ensures
        final(out)@ == old(out)@ + spec_enc_blocktype(bt),
{
    match bt {
        BlockType::Empty => {
            out.push(0x40);
            proof {
                assert(out@ =~= old(out)@ + spec_enc_blocktype(bt));
            }
        },
        BlockType::Inline(t) => {
            out.push(t.byte());
            proof {
                assert(out@ =~= old(out)@ + spec_enc_blocktype(bt));
            }
        },
        BlockType::Type(idx) => write_s(out, idx.0 as i64),
    }
}

/// Appends the bytes of the immediate of a load or store.
pub fn write_memarg(out: &mut Vec<u8>, m: MemArg)
    ensures
        final(out)@ == old(out)@ + spec_enc_memarg(m),
{
    write_u(out, m.align as u64);
    write_u(out, m.offset as u64);
    proof {
        assert(old(out)@ + spec_enc_u(m.align as nat) + spec_enc_u(m.offset as nat) =~= old(out)@
            + spec_enc_memarg(m));
    }
}

pub fn plain_code(inst: &Inst) -> (r: Option<u8>)
    ensures
        r == spec_plain_code(*inst),
{
    match inst {
        Inst::Unreachable => Some(0x00),
        Inst::Nop => Some(0x01),
        Inst::Return => Some(0x0F),
        Inst::Drop => Some(0x1A),
        Inst::Select => Some(0x1B),
        Inst::I32Eqz => Some(0x45),
        Inst::I32Compare(IntRelop::Eq) => Some(0x46),
        Inst::I32Compare(IntRelop::Ne) => Some(0x47),
        Inst::I32Compare(IntRelop::LtS) => Some(0x48),
        Inst::I32Compare(IntRelop::LtU) => Some(0x49),
        Inst::I32Compare(IntRelop::GtS) => Some(0x4A),
        Inst::I32Compare(IntRelop::GtU) => Some(0x4B),
        Inst::I32Compare(IntRelop::LeS) => Some(0x4C),
        Inst::I32Compare(IntRelop::LeU) => Some(0x4D),
        Inst::I32Compare(IntRelop::GeS) => Some(0x4E),
        Inst::I32Compare(IntRelop::GeU) => Some(0x4F),
        Inst::I64Eqz => Some(0x50),
        Inst::I64Compare(IntRelop::Eq) => Some(0x51),
        Inst::I64Compare(IntRelop::Ne) => Some(0x52),
        Inst::I64Compare(IntRelop::LtS) => Some(0x53),
        Inst::I64Compare(IntRelop::LtU) => Some(0x54),
        Inst::I64Compare(IntRelop::GtS) => Some(0x55),
        Inst::I64Compare(IntRelop::GtU) => Some(0x56),
        Inst::I64Compare(IntRelop::LeS) => Some(0x57),
        Inst::I64Compare(IntRelop::LeU) => Some(0x58),
        Inst::I64Compare(IntRelop::GeS) => Some(0x59),
        Inst::I64Compare(IntRelop::GeU) => Some(0x5A),
        Inst::Float(FloatOp::Compare32(FloatRelop::Eq)) => Some(0x5B),
        Inst::Float(FloatOp::Compare32(FloatRelop::Ne)) => Some(0x5C),
        Inst::Float(FloatOp::Compare32(FloatRelop::Lt)) => Some(0x5D),
        Inst::Float(FloatOp::Compare32(FloatRelop::Gt)) => Some(0x5E),
        Inst::Float(FloatOp::Compare32(FloatRelop::Le)) => Some(0x5F),
        Inst::Float(FloatOp::Compare32(FloatRelop::Ge)) => Some(0x60),
        Inst::Float(FloatOp::Compare64(FloatRelop::Eq)) => Some(0x61),
        Inst::Float(FloatOp::Compare64(FloatRelop::Ne)) => Some(0x62),
        Inst::Float(FloatOp::Compare64(FloatRelop::Lt)) => Some(0x63),
        Inst::Float(FloatOp::Compare64(FloatRelop::Gt)) => Some(0x64),
        Inst::Float(FloatOp::Compare64(FloatRelop::Le)) => Some(0x65),
        Inst::Float(FloatOp::Compare64(FloatRelop::Ge)) => Some(0x66),
        Inst::I32Unary(IntUnop::Clz) => Some(0x67),
        Inst::I32Unary(IntUnop::Ctz) => Some(0x68),
        Inst::I32Unary(IntUnop::Popcnt) => Some(0x69),
        Inst::I32Binary(IntBinop::Add) => Some(0x6A),
        Inst::I32Binary(IntBinop::Sub) => Some(0x6B),
        Inst::I32Binary(IntBinop::Mul) => Some(0x6C),
        Inst::I32Binary(IntBinop::DivS) => Some(0x6D),
        Inst::I32Binary(IntBinop::DivU) => Some(0x6E),
        Inst::I32Binary(IntBinop::RemS) => Some(0x6F),
        Inst::I32Binary(IntBinop::RemU) => Some(0x70),
        Inst::I32Binary(IntBinop::And) => Some(0x71),
        Inst::I32Binary(IntBinop::Or) => Some(0x72),
        Inst::I32Binary(IntBinop::Xor) => Some(0x73),
        Inst::I32Binary(IntBinop::Shl) => Some(0x74),
        Inst::I32Binary(IntBinop::ShrS) => Some(0x75),
        Inst::I32Binary(IntBinop::ShrU) => Some(0x76),
        Inst::I32Binary(IntBinop::Rotl) => Some(0x77),
        Inst::I32Binary(IntBinop::Rotr) => Some(0x78),
        Inst::I64Unary(IntUnop::Clz) => Some(0x79),
        Inst::I64Unary(IntUnop::Ctz) => Some(0x7A),
        Inst::I64Unary(IntUnop::Popcnt) => Some(0x7B),
        Inst::I64Binary(IntBinop::Add) => Some(0x7C),
        Inst::I64Binary(IntBinop::Sub) => Some(0x7D),
        Inst::I64Binary(IntBinop::Mul) => Some(0x7E),
        Inst::I64Binary(IntBinop::DivS) => Some(0x7F),
        Inst::I64Binary(IntBinop::DivU) => Some(0x80),
        Inst::I64Binary(IntBinop::RemS) => Some(0x81),
        Inst::I64Binary(IntBinop::RemU) => Some(0x82),
        Inst::I64Binary(IntBinop::And) => Some(0x83),
        Inst::I64Binary(IntBinop::Or) => Some(0x84),
        Inst::I64Binary(IntBinop::Xor) => Some(0x85),
        Inst::I64Binary(IntBinop::Shl) => Some(0x86),
        Inst::I64Binary(IntBinop::ShrS) => Some(0x87),
        Inst::I64Binary(IntBinop::ShrU) => Some(0x88),
        Inst::I64Binary(IntBinop::Rotl) => Some(0x89),
        Inst::I64Binary(IntBinop::Rotr) => Some(0x8A),
        Inst::Float(FloatOp::Unary32(FloatUnop::Abs)) => Some(0x8B),
        Inst::Float(FloatOp::Unary32(FloatUnop::Neg)) => Some(0x8C),
        Inst::Float(FloatOp::Unary32(FloatUnop::Ceil)) => Some(0x8D),
        Inst::Float(FloatOp::Unary32(FloatUnop::Floor)) => Some(0x8E),
        Inst::Float(FloatOp::Unary32(FloatUnop::Trunc)) => Some(0x8F),
        Inst::Float(FloatOp::Unary32(FloatUnop::Nearest)) => Some(0x90),
        Inst::Float(FloatOp::Unary32(FloatUnop::Sqrt)) => Some(0x91),
        Inst::Float(FloatOp::Binary32(FloatBinop::Add)) => Some(0x92),
        Inst::Float(FloatOp::Binary32(FloatBinop::Sub)) => Some(0x93),
        Inst::Float(FloatOp::Binary32(FloatBinop::Mul)) => Some(0x94),
        Inst::Float(FloatOp::Binary32(FloatBinop::Div)) => Some(0x95),
        Inst::Float(FloatOp::Binary32(FloatBinop::Min)) => Some(0x96),
        Inst::Float(FloatOp::Binary32(FloatBinop::Max)) => Some(0x97),
        Inst::Float(FloatOp::Binary32(FloatBinop::Copysign)) => Some(0x98),
        Inst::Float(FloatOp::Unary64(FloatUnop::Abs)) => Some(0x99),
        Inst::Float(FloatOp::Unary64(FloatUnop::Neg)) => Some(0x9A),
        Inst::Float(FloatOp::Unary64(FloatUnop::Ceil)) => Some(0x9B),
        Inst::Float(FloatOp::Unary64(FloatUnop::Floor)) => Some(0x9C),
        Inst::Float(FloatOp::Unary64(FloatUnop::Trunc)) => Some(0x9D),
        Inst::Float(FloatOp::Unary64(FloatUnop::Nearest)) => Some(0x9E),
        Inst::Float(FloatOp::Unary64(FloatUnop::Sqrt)) => Some(0x9F),
        Inst::Float(FloatOp::Binary64(FloatBinop::Add)) => Some(0xA0),
        Inst::Float(FloatOp::Binary64(FloatBinop::Sub)) => Some(0xA1),
        Inst::Float(FloatOp::Binary64(FloatBinop::Mul)) => Some(0xA2),
        Inst::Float(FloatOp::Binary64(FloatBinop::Div)) => Some(0xA3),
        Inst::Float(FloatOp::Binary64(FloatBinop::Min)) => Some(0xA4),
        Inst::Float(FloatOp::Binary64(FloatBinop::Max)) => Some(0xA5),
        Inst::Float(FloatOp::Binary64(FloatBinop::Copysign)) => Some(0xA6),
        Inst::Convert(IntConv::I32WrapI64) => Some(0xA7),
        Inst::Float(FloatOp::Convert(FloatConv::I32TruncF32S)) => Some(0xA8),
        Inst::Float(FloatOp::Convert(FloatConv::I32TruncF32U)) => Some(0xA9),
        Inst::Float(FloatOp::Convert(FloatConv::I32TruncF64S)) => Some(0xAA),
        Inst::Float(FloatOp::Convert(FloatConv::I32TruncF64U)) => Some(0xAB),
        Inst::Convert(IntConv::I64ExtendI32S) => Some(0xAC),
        Inst::Convert(IntConv::I64ExtendI32U) => Some(0xAD),
        Inst::Float(FloatOp::Convert(FloatConv::I64TruncF32S)) => Some(0xAE),
        Inst::Float(FloatOp::Convert(FloatConv::I64TruncF32U)) => Some(0xAF),
        Inst::Float(FloatOp::Convert(FloatConv::I64TruncF64S)) => Some(0xB0),
        Inst::Float(FloatOp::Convert(FloatConv::I64TruncF64U)) => Some(0xB1),
        Inst::Float(FloatOp::Convert(FloatConv::F32ConvertI32S)) => Some(0xB2),
        Inst::Float(FloatOp::Convert(FloatConv::F32ConvertI32U)) => Some(0xB3),
        Inst::Float(FloatOp::Convert(FloatConv::F32ConvertI64S)) => Some(0xB4),
        Inst::Float(FloatOp::Convert(FloatConv::F32ConvertI64U)) => Some(0xB5),
        Inst::Float(FloatOp::Convert(FloatConv::F32DemoteF64)) => Some(0xB6),
        Inst::Float(FloatOp::Convert(FloatConv::F64ConvertI32S)) => Some(0xB7),
        Inst::Float(FloatOp::Convert(FloatConv::F64ConvertI32U)) => Some(0xB8),
        Inst::Float(FloatOp::Convert(FloatConv::F64ConvertI64S)) => Some(0xB9),
        Inst::Float(FloatOp::Convert(FloatConv::F64ConvertI64U)) => Some(0xBA),
        Inst::Float(FloatOp::Convert(FloatConv::F64PromoteF32)) => Some(0xBB),
        Inst::Convert(IntConv::I32ReinterpretF32) => Some(0xBC),
        Inst::Convert(IntConv::I64ReinterpretF64) => Some(0xBD),
        Inst::Convert(IntConv::F32ReinterpretI32) => Some(0xBE),
        Inst::Convert(IntConv::F64ReinterpretI64) => Some(0xBF),
        _ => None,
    }
}

pub fn load_code(op: LoadOp) -> (r: u8)
    ensures
        r == spec_load_code(op),
{
    match op {
        LoadOp::I32Load => 0x28,
        LoadOp::I64Load => 0x29,
        LoadOp::F32Load => 0x2A,
        LoadOp::F64Load => 0x2B,
        LoadOp::I32Load8S => 0x2C,
        LoadOp::I32Load8U => 0x2D,
        LoadOp::I32Load16S => 0x2E,
        LoadOp::I32Load16U => 0x2F,
        LoadOp::I64Load8S => 0x30,
        LoadOp::I64Load8U => 0x31,
        LoadOp::I64Load16S => 0x32,
        LoadOp::I64Load16U => 0x33,
        LoadOp::I64Load32S => 0x34,
        LoadOp::I64Load32U => 0x35,
    }
}

pub fn store_code(op: StoreOp) -> (r: u8)
    ensures
        r == spec_store_code(op),
{
    match op {
        StoreOp::I32Store => 0x36,
        StoreOp::I64Store => 0x37,
        StoreOp::F32Store => 0x38,
        StoreOp::F64Store => 0x39,
        StoreOp::I32Store8 => 0x3A,
        StoreOp::I32Store16 => 0x3B,
        StoreOp::I64Store8 => 0x3C,
        StoreOp::I64Store16 => 0x3D,
        StoreOp::I64Store32 => 0x3E,
    }
}


/// Appends an opcode and a number.
fn write_op_u(out: &mut Vec<u8>, code: u8, v: u32)
    ensures
        final(out)@ == old(out)@ + (seq![code] + spec_enc_u(v as nat)),
{
    out.push(code);
    write_u(out, v as u64);
    proof {
        assert(old(out)@.push(code) + spec_enc_u(v as nat) =~= old(out)@ + (seq![code]
            + spec_enc_u(v as nat)));
    }
}

/// Appends the bytes of an instruction without nested parts and without a
/// table of labels.
fn write_plain(out: &mut Vec<u8>, inst: &Inst)
    requires
        !(inst is Block) && !(inst is Loop) && !(inst is IfElse) && !(inst is BreakTable),
    ensures
        spec_enc_plain(*inst) is Some,
        final(out)@ == old(out)@ + spec_enc_plain(*inst)->Some_0,
{
    proof {
        lemma_plain_writable(*inst);
    }
    match inst {
        Inst::Break(l) => write_op_u(out, 0x0C, l.0),
        Inst::BreakIf(l) => write_op_u(out, 0x0D, l.0),
        Inst::Call(f) => write_op_u(out, 0x10, f.0),
        Inst::CallIndirect(t, table) => {
            write_op_u(out, 0x11, t.0);
            write_u(out, table.0 as u64);
            proof {
                assert(old(out)@ + (seq![0x11u8] + spec_enc_u(t.0 as nat)) + spec_enc_u(
                    table.0 as nat,
                ) =~= old(out)@ + (seq![0x11u8] + spec_enc_u(t.0 as nat) + spec_enc_u(
                    table.0 as nat,
                )));
            }
        },
        Inst::LocalGet(i) => write_op_u(out, 0x20, i.0),
        Inst::LocalSet(i) => write_op_u(out, 0x21, i.0),
        Inst::LocalTee(i) => write_op_u(out, 0x22, i.0),
        Inst::GlobalGet(i) => write_op_u(out, 0x23, i.0),
        Inst::GlobalSet(i) => write_op_u(out, 0x24, i.0),
        Inst::Load(op, m) => {
            out.push(load_code(*op));
            write_memarg(out, *m);
            proof {
                assert(old(out)@.push(spec_load_code(*op)) + spec_enc_memarg(*m) =~= old(out)@ + (
                seq![spec_load_code(*op)] + spec_enc_memarg(*m)));
            }
        },
        Inst::Store(op, m) => {
            out.push(store_code(*op));
            write_memarg(out, *m);
            proof {
                assert(old(out)@.push(spec_store_code(*op)) + spec_enc_memarg(*m) =~= old(out)@ + (
                seq![spec_store_code(*op)] + spec_enc_memarg(*m)));
            }
        },
        Inst::MemorySize => {
            out.push(0x3F);
            out.push(0x00);
            proof {
                assert(out@ =~= old(out)@ + seq![0x3Fu8, 0x00u8]);
            }
        },
        Inst::MemoryGrow => {
            out.push(0x40);
            out.push(0x00);
            proof {
                assert(out@ =~= old(out)@ + seq![0x40u8, 0x00u8]);
            }
        },
        Inst::I32Const(v) => {
            out.push(0x41);
            write_s(out, *v as i64);
            proof {
                assert(old(out)@.push(0x41u8) + spec_enc_s(*v as int) =~= old(out)@ + (seq![0x41u8]
                    + spec_enc_s(*v as int)));
            }
        },
        Inst::I64Const(v) => {
            out.push(0x42);
            write_s(out, *v);
            proof {
                assert(old(out)@.push(0x42u8) + spec_enc_s(*v as int) =~= old(out)@ + (seq![0x42u8]
                    + spec_enc_s(*v as int)));
            }
        },
        Inst::F32Const(v) => {
            out.push(0x43);
            write_fixed(out, *v as u64, 4);
            proof {
                assert(old(out)@.push(0x43u8) + spec_le_encode(*v as nat, 4) =~= old(out)@ + (
                seq![0x43u8] + spec_le_encode(*v as nat, 4)));
            }
        },
        Inst::F64Const(v) => {
            out.push(0x44);
            write_fixed(out, *v, 8);
            proof {
                assert(old(out)@.push(0x44u8) + spec_le_encode(*v as nat, 8) =~= old(out)@ + (
                seq![0x44u8] + spec_le_encode(*v as nat, 8)));
            }
        },
        _ => {
            match plain_code(inst) {
                Some(b) => {
                    out.push(b);
                    proof {
                        assert(out@ =~= old(out)@ + seq![b]);
                    }
                },
                None => {},
            }
        },
    }
}

/// Appends the bytes of label indices.
pub fn write_labels(out: &mut Vec<u8>, labels: &Vec<LabelIdx>)
    ensures
        final(out)@ == old(out)@ + spec_enc_labelidxs(labels@),
{
    let mut i: usize = 0;
    proof {
        assert(labels@.skip(0) =~= labels@);
    }
    while i < labels.len()
        invariant
            i <= labels@.len(),
            out@ + spec_enc_labelidxs(labels@.skip(i as int)) == old(out)@ + spec_enc_labelidxs(
                labels@,
            ),
        decreases labels@.len() - i,
    {
        let ghost before = out@;
        let ghost rest = labels@.skip(i as int);
        write_u(out, labels[i].0 as u64);
        proof {
            assert(rest.drop_first() =~= labels@.skip(i + 1));
            assert(before + (spec_enc_labelidx(rest[0]) + spec_enc_labelidxs(rest.drop_first()))
                =~= before + spec_enc_u(rest[0].0 as nat) + spec_enc_labelidxs(rest.drop_first()));
        }
        i = i + 1;
    }
    proof {
        assert(out@ + spec_enc_labelidxs(labels@.skip(i as int)) =~= out@);
    }
}

/// Appends the bytes of an instruction, if it can be written.
pub fn write_inst(out: &mut Vec<u8>, inst: &Inst) -> (r: bool)
    ensures
        r == spec_ok_inst(inst.deep()),
        r ==> final(out)@ == old(out)@ + spec_enc_inst(inst.deep()),
    decreases inst,
{
    proof {
        crate::repr::lemma_deep_nested(*inst);
    }
    match inst {
        Inst::Block(bt, e) => {
            out.push(0x02);
            write_blocktype(out, *bt);
            if !write_insts(out, &e.instructions) {
                return false;
            }
            out.push(0x0B);
            proof {
                let body = spec_deep(e.instructions@);
                assert(out@ =~= old(out)@ + (seq![0x02u8] + spec_enc_blocktype(*bt)
                    + spec_enc_insts(body, 0) + seq![0x0Bu8]));
            }
            true
        },
        Inst::Loop(bt, e) => {
            out.push(0x03);
            write_blocktype(out, *bt);
            if !write_insts(out, &e.instructions) {
                return false;
            }
            out.push(0x0B);
            proof {
                let body = spec_deep(e.instructions@);
                assert(out@ =~= old(out)@ + (seq![0x03u8] + spec_enc_blocktype(*bt)
                    + spec_enc_insts(body, 0) + seq![0x0Bu8]));
            }
            true
        },
        Inst::IfElse(bt, a, b) => {
            out.push(0x04);
            write_blocktype(out, *bt);
            if !write_insts(out, &a.instructions) {
                return false;
            }
            let ghost first = spec_deep(a.instructions@);
            let ghost second = spec_deep(b.instructions@);
            if b.instructions.len() == 0 {
                out.push(0x0B);
                proof {
                    assert(out@ =~= old(out)@ + (seq![0x04u8] + spec_enc_blocktype(*bt)
                        + spec_enc_insts(first, 0) + seq![0x0Bu8]));
                }
                return true;
            }
            out.push(0x05);
            if !write_insts(out, &b.instructions) {
                return false;
            }
            out.push(0x0B);
            proof {
                assert(out@ =~= old(out)@ + (seq![0x04u8] + spec_enc_blocktype(*bt)
                    + spec_enc_insts(first, 0) + seq![0x05u8] + spec_enc_insts(second, 0)
                    + seq![0x0Bu8]));
            }
            true
        },
        Inst::BreakTable(ls, d) => {
            if ls.len() > u32::MAX as usize {
                return false;
            }
            out.push(0x0E);
            write_u(out, ls.len() as u64);
            write_labels(out, ls);
            write_u(out, d.0 as u64);
            proof {
                assert(out@ =~= old(out)@ + (seq![0x0Eu8] + spec_enc_u(ls@.len())
                    + spec_enc_labelidxs(ls@) + spec_enc_labelidx(*d)));
            }
            true
        },
        _ => {
            proof {
                lemma_plain_writable(*inst);
            }
            write_plain(out, inst);
            true
        },
    }
}

/// Appends the bytes of the instructions of a sequence, if they can be
/// written.
pub fn write_insts(out: &mut Vec<u8>, insts: &Vec<Inst>) -> (r: bool)
    ensures
        r == spec_ok_insts(spec_deep(insts@), 0),
        r ==> final(out)@ == old(out)@ + spec_enc_insts(spec_deep(insts@), 0),
    decreases insts,
{
    let ghost s = spec_deep(insts@);
    let mut k: usize = 0;
    while k < insts.len()
        invariant
            k <= insts@.len(),
            s == spec_deep(insts@),
            spec_ok_insts(s, 0) == spec_ok_insts(s, k as nat),
            out@ + spec_enc_insts(s, k as nat) == old(out)@ + spec_enc_insts(s, 0),
        decreases insts@.len() - k,
    {
        let ghost before = out@;
        proof {
            lemma_ok_insts_unfold(s, k as nat);
        }
        if !write_inst(out, &insts[k]) {
            return false;
        }
        proof {
            assert(before + (spec_enc_inst(s[k as int]) + spec_enc_insts(s, (k + 1) as nat))
                =~= before + spec_enc_inst(s[k as int]) + spec_enc_insts(s, (k + 1) as nat));
        }
        k = k + 1;
    }
    proof {
        assert(out@ + spec_enc_insts(s, k as nat) =~= out@);
    }
    true
}

/// Appends the bytes of an expression, if it can be written.
pub fn write_expr(out: &mut Vec<u8>, insts: &Vec<Inst>) -> (r: bool)
    ensures
        r == spec_ok_insts(spec_deep(insts@), 0),
        r ==> final(out)@ == old(out)@ + spec_enc_expr(spec_deep(insts@)),
{
    if !write_insts(out, insts) {
        return false;
    }
    out.push(0x0B);
    proof {
        assert(out@ =~= old(out)@ + spec_enc_expr(spec_deep(insts@)));
    }
    true
}

/// Appends the bytes of a function type, if it can be written.
pub fn write_functype(out: &mut Vec<u8>, t: &FuncType) -> (r: bool)
    ensures
        r == spec_ok_functype(t@),
        r ==> final(out)@ == old(out)@ + spec_enc_functype(t@),
{
    if t.from.types.len() > u32::MAX as usize || t.to.types.len() > u32::MAX as usize {
        return false;
    }
    out.push(0x60);
    let _ = write_resulttype(out, &t.from.types);
    let _ = write_resulttype(out, &t.to.types);
    proof {
        assert(out@ =~= old(out)@ + spec_enc_functype(t@));
    }
    true
}

/// Appends the bytes of what an import describes.
pub fn write_import_desc(out: &mut Vec<u8>, d: ImportDesc)
    ensures
        final(out)@ == old(out)@ + spec_enc_import_desc(d),
{
    match d {
        ImportDesc::Func(t) => {
            out.push(0x00);
            write_u(out, t.0 as u64);
        },
        ImportDesc::Table(t) => {
            out.push(0x01);
            write_tabletype(out, t);
        },
        ImportDesc::Mem(t) => {
            out.push(0x02);
            write_limits(out, t.limits);
        },
        ImportDesc::Global(t) => {
            out.push(0x03);
            write_globaltype(out, t);
        },
    }
    proof {
        assert(out@ =~= old(out)@ + spec_enc_import_desc(d));
    }
}

/// Appends the bytes of an import, if it can be written.
pub fn write_import(out: &mut Vec<u8>, i: &Import) -> (r: bool)
    ensures
        r == spec_ok_import(i.deep()),
        r ==> final(out)@ == old(out)@ + spec_enc_import(i.deep()),
{
    if !write_name(out, &i.module) {
        return false;
    }
    if !write_name(out, &i.nm) {
        return false;
    }
    write_import_desc(out, i.desc);
    proof {
        assert(out@ =~= old(out)@ + spec_enc_import(i.deep()));
    }
    true
}

/// Appends the bytes of an export, if it can be written.
pub fn write_export(out: &mut Vec<u8>, e: &Export) -> (r: bool)
    ensures
        r == spec_ok_export(e.deep()),
        r ==> final(out)@ == old(out)@ + spec_enc_export(e.deep()),
{
    if !write_name(out, &e.name) {
        return false;
    }
    match e.desc {
        ExportDesc::Func(i) => {
            out.push(0x00);
            write_u(out, i.0 as u64);
        },
        ExportDesc::Table(i) => {
            out.push(0x01);
            write_u(out, i.0 as u64);
        },
        ExportDesc::Mem(i) => {
            out.push(0x02);
            write_u(out, i.0 as u64);
        },
        ExportDesc::Global(i) => {
            out.push(0x03);
            write_u(out, i.0 as u64);
        },
    }
    proof {
        assert(out@ =~= old(out)@ + spec_enc_export(e.deep()));
    }
    true
}

/// Appends the bytes of a declaration of locals.
pub fn write_local(out: &mut Vec<u8>, l: Locals)
    ensures
        final(out)@ == old(out)@ + spec_enc_local(l),
{
    write_u(out, l.n as u64);
    out.push(l.t.byte());
    proof {
        assert(out@ =~= old(out)@ + spec_enc_local(l));
    }
}

/// Appends the bytes of a global, if it can be written.
pub fn write_global(out: &mut Vec<u8>, g: &Global) -> (r: bool)
    ensures
        r == spec_ok_global(g.deep()),
        r ==> final(out)@ == old(out)@ + spec_enc_global(g.deep()),
{
    write_globaltype(out, g.typ);
    if !write_expr(out, &g.init) {
        return false;
    }
    proof {
        assert(out@ =~= old(out)@ + spec_enc_global(g.deep()));
    }
    true
}

/// Whether each of the function types can be written.
pub open spec fn spec_all_functype(s: Seq<(Seq<ValType>, Seq<ValType>)>) -> bool {
    forall|i: int| 0 <= i < s.len() ==> spec_ok_functype(#[trigger] s[i])
}

/// Appends the bytes of function types, if they can be written.
pub fn write_functypes(out: &mut Vec<u8>, items: &Vec<FuncType>) -> (r: bool)
    ensures
        r == spec_all_functype(Seq::new(items@.len(), |i: int| items@[i]@)),
        r ==> final(out)@ == old(out)@ + spec_enc_functypes(Seq::new(items@.len(), |i: int| items@[i]@)),
{
    let ghost s = Seq::new(items@.len(), |i: int| items@[i]@);
    let mut i: usize = 0;
    proof {
        assert(s.skip(0) =~= s);
    }
    while i < items.len()
        invariant
            i <= items@.len(),
            s == Seq::new(items@.len(), |i: int| items@[i]@),
            forall|j: int| 0 <= j < i ==> spec_ok_functype(#[trigger] s[j]),
            out@ + spec_enc_functypes(s.skip(i as int)) == old(out)@ + spec_enc_functypes(s),
        decreases items@.len() - i,
    {
        let ghost before = out@;
        let ghost rest = s.skip(i as int);
        if !write_functype(out, &items[i]) {
            assert(!spec_ok_functype(s[i as int]));
            return false;
        }
        proof {
            assert(rest.drop_first() =~= s.skip(i + 1));
            assert(rest[0] == s[i as int]);
            assert(before + (spec_enc_functype(rest[0]) + spec_enc_functypes(rest.drop_first())) =~= before
                + spec_enc_functype(rest[0]) + spec_enc_functypes(rest.drop_first()));
        }
        i = i + 1;
    }
    proof {
        assert(out@ + spec_enc_functypes(s.skip(i as int)) =~= out@);
    }
    true
}

/// Whether each of the imports can be written.
pub open spec fn spec_all_import(s: Seq<ImportView>) -> bool {
    forall|i: int| 0 <= i < s.len() ==> spec_ok_import(#[trigger] s[i])
}

/// Appends the bytes of imports, if they can be written.
pub fn write_imports(out: &mut Vec<u8>, items: &Vec<Import>) -> (r: bool)
    ensures
        r == spec_all_import(Seq::new(items@.len(), |i: int| items@[i].deep())),
        r ==> final(out)@ == old(out)@ + spec_enc_imports(Seq::new(items@.len(), |i: int| items@[i].deep())),
{
    let ghost s = Seq::new(items@.len(), |i: int| items@[i].deep());
    let mut i: usize = 0;
    proof {
        assert(s.skip(0) =~= s);
    }
    while i < items.len()
        invariant
            i <= items@.len(),
            s == Seq::new(items@.len(), |i: int| items@[i].deep()),
            forall|j: int| 0 <= j < i ==> spec_ok_import(#[trigger] s[j]),
            out@ + spec_enc_imports(s.skip(i as int)) == old(out)@ + spec_enc_imports(s),
        decreases items@.len() - i,
    {
        let ghost before = out@;
        let ghost rest = s.skip(i as int);
        if !write_import(out, &items[i]) {
            assert(!spec_ok_import(s[i as int]));
            return false;
        }
        proof {
            assert(rest.drop_first() =~= s.skip(i + 1));
            assert(rest[0] == s[i as int]);
            assert(before + (spec_enc_import(rest[0]) + spec_enc_imports(rest.drop_first())) =~= before
                + spec_enc_import(rest[0]) + spec_enc_imports(rest.drop_first()));
        }
        i = i + 1;
    }
    proof {
        assert(out@ + spec_enc_imports(s.skip(i as int)) =~= out@);
    }
    true
}

/// Appends the bytes of table types.
pub fn write_tabletypes(out: &mut Vec<u8>, items: &Vec<TableType>)
    ensures
        final(out)@ == old(out)@ + spec_enc_tabletypes(items@),
{
    let ghost s = items@;
    let mut i: usize = 0;
    proof {
        assert(s.skip(0) =~= s);
    }
    while i < items.len()
        invariant
            i <= items@.len(),
            s == items@,
            out@ + spec_enc_tabletypes(s.skip(i as int)) == old(out)@ + spec_enc_tabletypes(s),
        decreases items@.len() - i,
    {
        let ghost before = out@;
        let ghost rest = s.skip(i as int);
        write_tabletype(out, items[i]);
        proof {
            assert(rest.drop_first() =~= s.skip(i + 1));
            assert(rest[0] == s[i as int]);
            assert(before + (spec_enc_tabletype(rest[0]) + spec_enc_tabletypes(rest.drop_first())) =~= before
                + spec_enc_tabletype(rest[0]) + spec_enc_tabletypes(rest.drop_first()));
        }
        i = i + 1;
    }
    proof {
        assert(out@ + spec_enc_tabletypes(s.skip(i as int)) =~= out@);
    }
}

/// Appends the bytes of memory types.
pub fn write_memtypes(out: &mut Vec<u8>, items: &Vec<MemType>)
    ensures
        final(out)@ == old(out)@ + spec_enc_memtypes(items@),
{
    let ghost s = items@;
    let mut i: usize = 0;
    proof {
        assert(s.skip(0) =~= s);
    }
    while i < items.len()
        invariant
            i <= items@.len(),
            s == items@,
            out@ + spec_enc_memtypes(s.skip(i as int)) == old(out)@ + spec_enc_memtypes(s),
        decreases items@.len() - i,
    {
        let ghost before = out@;
        let ghost rest = s.skip(i as int);
        write_limits(out, items[i].limits);
        proof {
            assert(rest.drop_first() =~= s.skip(i + 1));
            assert(rest[0] == s[i as int]);
            assert(before + (spec_enc_memtype(rest[0]) + spec_enc_memtypes(rest.drop_first())) =~= before
                + spec_enc_memtype(rest[0]) + spec_enc_memtypes(rest.drop_first()));
        }
        i = i + 1;
    }
    proof {
        assert(out@ + spec_enc_memtypes(s.skip(i as int)) =~= out@);
    }
}

/// Whether each of the globals can be written.
pub open spec fn spec_all_global(s: Seq<GlobalView>) -> bool {
    forall|i: int| 0 <= i < s.len() ==> spec_ok_global(#[trigger] s[i])
}

/// Appends the bytes of globals, if they can be written.
pub fn write_globals(out: &mut Vec<u8>, items: &Vec<Global>) -> (r: bool)
    ensures
        r == spec_all_global(Seq::new(items@.len(), |i: int| items@[i].deep())),
        r ==> final(out)@ == old(out)@ + spec_enc_globals(Seq::new(items@.len(), |i: int| items@[i].deep())),
{
    let ghost s = Seq::new(items@.len(), |i: int| items@[i].deep());
    let mut i: usize = 0;
    proof {
        assert(s.skip(0) =~= s);
    }
    while i < items.len()
        invariant
            i <= items@.len(),
            s == Seq::new(items@.len(), |i: int| items@[i].deep()),
            forall|j: int| 0 <= j < i ==> spec_ok_global(#[trigger] s[j]),
            out@ + spec_enc_globals(s.skip(i as int)) == old(out)@ + spec_enc_globals(s),
        decreases items@.len() - i,
    {
        let ghost before = out@;
        let ghost rest = s.skip(i as int);
        if !write_global(out, &items[i]) {
            assert(!spec_ok_global(s[i as int]));
            return false;
        }
        proof {
            assert(rest.drop_first() =~= s.skip(i + 1));
            assert(rest[0] == s[i as int]);
            assert(before + (spec_enc_global(rest[0]) + spec_enc_globals(rest.drop_first())) =~= before
                + spec_enc_global(rest[0]) + spec_enc_globals(rest.drop_first()));
        }
        i = i + 1;
    }
    proof {
        assert(out@ + spec_enc_globals(s.skip(i as int)) =~= out@);
    }
    true
}

/// Whether each of the exports can be written.
pub open spec fn spec_all_export(s: Seq<ExportView>) -> bool {
    forall|i: int| 0 <= i < s.len() ==> spec_ok_export(#[trigger] s[i])
}

/// Appends the bytes of exports, if they can be written.
pub fn write_exports(out: &mut Vec<u8>, items: &Vec<Export>) -> (r: bool)
    ensures
        r == spec_all_export(Seq::new(items@.len(), |i: int| items@[i].deep())),
        r ==> final(out)@ == old(out)@ + spec_enc_exports(Seq::new(items@.len(), |i: int| items@[i].deep())),
{
    let ghost s = Seq::new(items@.len(), |i: int| items@[i].deep());
    let mut i: usize = 0;
    proof {
        assert(s.skip(0) =~= s);
    }
    while i < items.len()
        invariant
            i <= items@.len(),
            s == Seq::new(items@.len(), |i: int| items@[i].deep()),
            forall|j: int| 0 <= j < i ==> spec_ok_export(#[trigger] s[j]),
            out@ + spec_enc_exports(s.skip(i as int)) == old(out)@ + spec_enc_exports(s),
        decreases items@.len() - i,
    {
        let ghost before = out@;
        let ghost rest = s.skip(i as int);
        if !write_export(out, &items[i]) {
            assert(!spec_ok_export(s[i as int]));
            return false;
        }
        proof {
            assert(rest.drop_first() =~= s.skip(i + 1));
            assert(rest[0] == s[i as int]);
            assert(before + (spec_enc_export(rest[0]) + spec_enc_exports(rest.drop_first())) =~= before
                + spec_enc_export(rest[0]) + spec_enc_exports(rest.drop_first()));
        }
        i = i + 1;
    }
    proof {
        assert(out@ + spec_enc_exports(s.skip(i as int)) =~= out@);
    }
    true
}

/// Appends the bytes of declarations of locals.
pub fn write_locals(out: &mut Vec<u8>, items: &Vec<Locals>)
    ensures
        final(out)@ == old(out)@ + spec_enc_locals(items@),
{
    let ghost s = items@;
    let mut i: usize = 0;
    proof {
        assert(s.skip(0) =~= s);
    }
    while i < items.len()
        invariant
            i <= items@.len(),
            s == items@,
            out@ + spec_enc_locals(s.skip(i as int)) == old(out)@ + spec_enc_locals(s),
        decreases items@.len() - i,
    {
        let ghost before = out@;
        let ghost rest = s.skip(i as int);
        write_local(out, items[i]);
        proof {
            assert(rest.drop_first() =~= s.skip(i + 1));
            assert(rest[0] == s[i as int]);
            assert(before + (spec_enc_local(rest[0]) + spec_enc_locals(rest.drop_first())) =~= before
                + spec_enc_local(rest[0]) + spec_enc_locals(rest.drop_first()));
        }
        i = i + 1;
    }
    proof {
        assert(out@ + spec_enc_locals(s.skip(i as int)) =~= out@);
    }
}

/// Appends the bytes of function indices.
pub fn write_funcidxs(out: &mut Vec<u8>, items: &Vec<FuncIdx>)
    ensures
        final(out)@ == old(out)@ + spec_enc_funcidxs(items@),
{
    let ghost s = items@;
    let mut i: usize = 0;
    proof {
        assert(s.skip(0) =~= s);
    }
    while i < items.len()
        invariant
            i <= items@.len(),
            s == items@,
            out@ + spec_enc_funcidxs(s.skip(i as int)) == old(out)@ + spec_enc_funcidxs(s),
        decreases items@.len() - i,
    {
        let ghost before = out@;
        let ghost rest = s.skip(i as int);
        write_u(out, items[i].0 as u64);
        proof {
            assert(rest.drop_first() =~= s.skip(i + 1));
            assert(rest[0] == s[i as int]);
            assert(before + (spec_enc_funcidx(rest[0]) + spec_enc_funcidxs(rest.drop_first())) =~= before
                + spec_enc_funcidx(rest[0]) + spec_enc_funcidxs(rest.drop_first()));
        }
        i = i + 1;
    }
    proof {
        assert(out@ + spec_enc_funcidxs(s.skip(i as int)) =~= out@);
    }
}

/// Whether each of the element segments can be written.
pub open spec fn spec_all_elem(s: Seq<ElemView>) -> bool {
    forall|i: int| 0 <= i < s.len() ==> spec_ok_elem(#[trigger] s[i])
}

/// Appends the bytes of element segments, if they can be written.
pub fn write_elems(out: &mut Vec<u8>, items: &Vec<Elem>) -> (r: bool)
    ensures
        r == spec_all_elem(Seq::new(items@.len(), |i: int| items@[i].deep())),
        r ==> final(out)@ == old(out)@ + spec_enc_elems(Seq::new(items@.len(), |i: int| items@[i].deep())),
{
    let ghost s = Seq::new(items@.len(), |i: int| items@[i].deep());
    let mut i: usize = 0;
    proof {
        assert(s.skip(0) =~= s);
    }
    while i < items.len()
        invariant
            i <= items@.len(),
            s == Seq::new(items@.len(), |i: int| items@[i].deep()),
            forall|j: int| 0 <= j < i ==> spec_ok_elem(#[trigger] s[j]),
            out@ + spec_enc_elems(s.skip(i as int)) == old(out)@ + spec_enc_elems(s),
        decreases items@.len() - i,
    {
        let ghost before = out@;
        let ghost rest = s.skip(i as int);
        if !write_elem(out, &items[i]) {
            assert(!spec_ok_elem(s[i as int]));
            return false;
        }
        proof {
            assert(rest.drop_first() =~= s.skip(i + 1));
            assert(rest[0] == s[i as int]);
            assert(before + (spec_enc_elem(rest[0]) + spec_enc_elems(rest.drop_first())) =~= before
                + spec_enc_elem(rest[0]) + spec_enc_elems(rest.drop_first()));
        }
        i = i + 1;
    }
    proof {
        assert(out@ + spec_enc_elems(s.skip(i as int)) =~= out@);
    }
    true
}

/// Whether each of the data segments can be written.
pub open spec fn spec_all_data(s: Seq<DataView>) -> bool {
    forall|i: int| 0 <= i < s.len() ==> spec_ok_data(#[trigger] s[i])
}

/// Appends the bytes of data segments, if they can be written.
pub fn write_datas(out: &mut Vec<u8>, items: &Vec<Data>) -> (r: bool)
    ensures
        r == spec_all_data(Seq::new(items@.len(), |i: int| items@[i].deep())),
        r ==> final(out)@ == old(out)@ + spec_enc_datas(Seq::new(items@.len(), |i: int| items@[i].deep())),
{
    let ghost s = Seq::new(items@.len(), |i: int| items@[i].deep());
    let mut i: usize = 0;
    proof {
        assert(s.skip(0) =~= s);
    }
    while i < items.len()
        invariant
            i <= items@.len(),
            s == Seq::new(items@.len(), |i: int| items@[i].deep()),
            forall|j: int| 0 <= j < i ==> spec_ok_data(#[trigger] s[j]),
            out@ + spec_enc_datas(s.skip(i as int)) == old(out)@ + spec_enc_datas(s),
        decreases items@.len() - i,
    {
        let ghost before = out@;
        let ghost rest = s.skip(i as int);
        if !write_data(out, &items[i]) {
            assert(!spec_ok_data(s[i as int]));
            return false;
        }
        proof {
            assert(rest.drop_first() =~= s.skip(i + 1));
            assert(rest[0] == s[i as int]);
            assert(before + (spec_enc_data(rest[0]) + spec_enc_datas(rest.drop_first())) =~= before
                + spec_enc_data(rest[0]) + spec_enc_datas(rest.drop_first()));
        }
        i = i + 1;
    }
    proof {
        assert(out@ + spec_enc_datas(s.skip(i as int)) =~= out@);
    }
    true
}


/// Appends a count and as many function indices, if they can be counted
/// in 32 bits.
pub fn write_funcs(out: &mut Vec<u8>, init: &Vec<FuncIdx>) -> (r: bool)
    ensures
        r == (init@.len() <= u32::MAX),
        r ==> final(out)@ == old(out)@ + spec_enc_funcs(init@),
{
    if init.len() > u32::MAX as usize {
        return false;
    }
    write_u(out, init.len() as u64);
    write_funcidxs(out, init);
    proof {
        assert(out@ =~= old(out)@ + spec_enc_funcs(init@));
    }
    true
}

/// Appends the bytes of an element segment, if it can be written.
pub fn write_elem(out: &mut Vec<u8>, e: &Elem) -> (r: bool)
    ensures
        r == spec_ok_elem(e.deep()),
        r ==> final(out)@ == old(out)@ + spec_enc_elem(e.deep()),
{
    match e.typ {
        Reftype::Funcref => {},
        Reftype::Externref => {
            return false;
        },
    }
    if e.init.len() > u32::MAX as usize {
        return false;
    }
    match &e.mode {
        ElemMode::Active { table, offset } => {
            if table.0 == 0 {
                out.push(0x00);
                if !write_expr(out, offset) {
                    return false;
                }
            } else {
                out.push(0x02);
                write_u(out, table.0 as u64);
                if !write_expr(out, offset) {
                    return false;
                }
                out.push(0x00);
            }
        },
        ElemMode::Passive => {
            out.push(0x01);
            out.push(0x00);
        },
        ElemMode::Declarative => {
            out.push(0x03);
            out.push(0x00);
        },
    }
    let _ = write_funcs(out, &e.init);
    proof {
        assert(out@ =~= old(out)@ + spec_enc_elem(e.deep()));
    }
    true
}

/// Appends the bytes of a data segment, if it can be written.
pub fn write_data(out: &mut Vec<u8>, d: &Data) -> (r: bool)
    ensures
        r == spec_ok_data(d.deep()),
        r ==> final(out)@ == old(out)@ + spec_enc_data(d.deep()),
{
    if d.init.len() > u32::MAX as usize {
        return false;
    }
    match &d.mode {
        Datamode::Active { memory, offset } => {
            if memory.0 == 0 {
                out.push(0x00);
                if !write_expr(out, offset) {
                    return false;
                }
            } else {
                out.push(0x02);
                write_u(out, memory.0 as u64);
                if !write_expr(out, offset) {
                    return false;
                }
            }
        },
        Datamode::Passive => {
            out.push(0x01);
        },
    }
    let _ = write_blob(out, d.init.as_slice());
    proof {
        assert(out@ =~= old(out)@ + spec_enc_data(d.deep()));
    }
    true
}

/// Appends the bytes of the body of a function, if it can be written.
pub fn write_code(out: &mut Vec<u8>, f: &Func) -> (r: bool)
    ensures
        r == spec_ok_code(f.deep()),
        r ==> final(out)@ == old(out)@ + spec_enc_code(f.deep()),
{
    if f.locals.len() > u32::MAX as usize {
        return false;
    }
    let mut body: Vec<u8> = Vec::new();
    write_u(&mut body, f.locals.len() as u64);
    write_locals(&mut body, &f.locals);
    if !write_expr(&mut body, &f.body) {
        return false;
    }
    proof {
        assert(body@ =~= spec_enc_func_body(f.deep()));
    }
    write_blob(out, body.as_slice())
}

/// Whether each of the bodies of functions can be written.
pub open spec fn spec_all_code(s: Seq<FuncView>) -> bool {
    forall|i: int| 0 <= i < s.len() ==> spec_ok_code(#[trigger] s[i])
}

/// Appends the bytes of the bodies of functions, if they can be written.
pub fn write_codes(out: &mut Vec<u8>, items: &Vec<Func>) -> (r: bool)
    ensures
        r == spec_all_code(Seq::new(items@.len(), |i: int| items@[i].deep())),
        r ==> final(out)@ == old(out)@ + spec_enc_codes(
            Seq::new(items@.len(), |i: int| items@[i].deep()),
        ),
{
    let ghost s = Seq::new(items@.len(), |i: int| items@[i].deep());
    let mut i: usize = 0;
    proof {
        assert(s.skip(0) =~= s);
    }
    while i < items.len()
        invariant
            i <= items@.len(),
            s == Seq::new(items@.len(), |i: int| items@[i].deep()),
            forall|j: int| 0 <= j < i ==> spec_ok_code(#[trigger] s[j]),
            out@ + spec_enc_codes(s.skip(i as int)) == old(out)@ + spec_enc_codes(s),
        decreases items@.len() - i,
    {
        let ghost before = out@;
        let ghost rest = s.skip(i as int);
        if !write_code(out, &items[i]) {
            assert(!spec_ok_code(s[i as int]));
            return false;
        }
        proof {
            assert(rest.drop_first() =~= s.skip(i + 1));
            assert(rest[0] == s[i as int]);
            assert(before + (spec_enc_code(rest[0]) + spec_enc_codes(rest.drop_first())) =~= before
                + spec_enc_code(rest[0]) + spec_enc_codes(rest.drop_first()));
        }
        i = i + 1;
    }
    proof {
        assert(out@ + spec_enc_codes(s.skip(i as int)) =~= out@);
    }
    true
}

/// Appends the type indices of functions.
pub fn write_types_of(out: &mut Vec<u8>, items: &Vec<Func>)
    ensures
        final(out)@ == old(out)@ + spec_enc_typeidxs(
            spec_types_of(Seq::new(items@.len(), |i: int| items@[i].deep())),
        ),
{
    let ghost s = spec_types_of(Seq::new(items@.len(), |i: int| items@[i].deep()));
    let mut i: usize = 0;
    proof {
        assert(s.skip(0) =~= s);
    }
    while i < items.len()
        invariant
            i <= items@.len(),
            s == spec_types_of(Seq::new(items@.len(), |i: int| items@[i].deep())),
            out@ + spec_enc_typeidxs(s.skip(i as int)) == old(out)@ + spec_enc_typeidxs(s),
        decreases items@.len() - i,
    {
        let ghost before = out@;
        let ghost rest = s.skip(i as int);
        write_u(out, items[i].typ.0 as u64);
        proof {
            assert(rest.drop_first() =~= s.skip(i + 1));
            assert(rest[0] == s[i as int]);
            assert(before + (spec_enc_typeidx(rest[0]) + spec_enc_typeidxs(rest.drop_first()))
                =~= before + spec_enc_typeidx(rest[0]) + spec_enc_typeidxs(rest.drop_first()));
        }
        i = i + 1;
    }
    proof {
        assert(out@ + spec_enc_typeidxs(s.skip(i as int)) =~= out@);
    }
}

/// Appends a section, if the bytes of its body can be counted in 32 bits.
pub fn write_section(out: &mut Vec<u8>, id: u8, body: &Vec<u8>) -> (r: bool)
    ensures
        r == (body@.len() <= u32::MAX),
        r ==> final(out)@ == old(out)@ + spec_enc_section(id, body@),
{
    if body.len() > u32::MAX as usize {
        return false;
    }
    out.push(id);
    let _ = write_blob(out, body.as_slice());
    proof {
        assert(out@ =~= old(out)@ + spec_enc_section(id, body@));
    }
    true
}

/// The body of the `k`-th section of a module, if what the section holds
/// can be written.
fn section_body(m: &Module, k: u8) -> (r: Option<Vec<u8>>)
    requires
        k < 11,
    ensures
        r is Some == spec_section_ok(m.deep(), k as int),
        r matches Some(v) ==> v@ == spec_section_body(m.deep(), k as int),
{
    let mut body: Vec<u8> = Vec::new();
    let count: usize = if k == 0 {
        m.types.len()
    } else if k == 1 {
        m.imports.len()
    } else if k == 2 || k == 9 {
        m.funcs.len()
    } else if k == 3 {
        m.tables.len()
    } else if k == 4 {
        m.mems.len()
    } else if k == 5 {
        m.globals.len()
    } else if k == 6 {
        m.exports.len()
    } else if k == 7 {
        0
    } else if k == 8 {
        m.elems.len()
    } else {
        m.datas.len()
    };
    if count > u32::MAX as usize {
        return None;
    }
    if k == 7 {
        match m.start {
            Some(f) => write_u(&mut body, f.0 as u64),
            None => {},
        }
        proof {
            assert(body@ =~= spec_section_body(m.deep(), 7));
        }
        return Some(body);
    }
    write_u(&mut body, count as u64);
    let ok = if k == 0 {
        write_functypes(&mut body, &m.types)
    } else if k == 1 {
        write_imports(&mut body, &m.imports)
    } else if k == 2 {
        write_types_of(&mut body, &m.funcs);
        true
    } else if k == 3 {
        write_tabletypes(&mut body, &m.tables);
        true
    } else if k == 4 {
        write_memtypes(&mut body, &m.mems);
        true
    } else if k == 5 {
        write_globals(&mut body, &m.globals)
    } else if k == 6 {
        write_exports(&mut body, &m.exports)
    } else if k == 8 {
        write_elems(&mut body, &m.elems)
    } else if k == 9 {
        write_codes(&mut body, &m.funcs)
    } else {
        write_datas(&mut body, &m.datas)
    };
    if !ok {
        return None;
    }
    proof {
        assert(body@ =~= spec_section_body(m.deep(), k as int));
    }
    Some(body)
}

/// Whether what the `k`-th section of a module holds can be written.
pub open spec fn spec_section_ok(m: ModuleView, k: int) -> bool {
    if k == 0 {
        m.types.len() <= u32::MAX && spec_all_functype(m.types)
    } else if k == 1 {
        m.imports.len() <= u32::MAX && spec_all_import(m.imports)
    } else if k == 2 {
        m.funcs.len() <= u32::MAX
    } else if k == 3 {
        m.tables.len() <= u32::MAX
    } else if k == 4 {
        m.mems.len() <= u32::MAX
    } else if k == 5 {
        m.globals.len() <= u32::MAX && spec_all_global(m.globals)
    } else if k == 6 {
        m.exports.len() <= u32::MAX && spec_all_export(m.exports)
    } else if k == 7 {
        true
    } else if k == 8 {
        m.elems.len() <= u32::MAX && spec_all_elem(m.elems)
    } else if k == 9 {
        m.funcs.len() <= u32::MAX && spec_all_code(m.funcs)
    } else {
        m.datas.len() <= u32::MAX && spec_all_data(m.datas)
    }
}

/// A module can be written exactly if each of its sections can, and the
/// bytes of each section's body can be counted in 32 bits.
pub proof fn lemma_ok_module(m: ModuleView)
    ensures
        spec_ok_module(m) == (forall|k: int|
            0 <= k < 11 ==> (#[trigger] spec_section_ok(m, k)) && spec_section_body(m, k).len()
                <= u32::MAX),
{
    if spec_ok_module(m) {
        assert forall|k: int| 0 <= k < 11 implies (#[trigger] spec_section_ok(m, k))
            && spec_section_body(m, k).len() <= u32::MAX by {}
    }
    if forall|k: int|
        0 <= k < 11 ==> (#[trigger] spec_section_ok(m, k)) && spec_section_body(m, k).len()
            <= u32::MAX {
        assert(spec_section_ok(m, 0));
        assert(spec_section_ok(m, 1));
        assert(spec_section_ok(m, 2));
        assert(spec_section_ok(m, 3));
        assert(spec_section_ok(m, 4));
        assert(spec_section_ok(m, 5));
        assert(spec_section_ok(m, 6));
        assert(spec_section_ok(m, 8));
        assert(spec_section_ok(m, 9));
        assert(spec_section_ok(m, 10));
        assert forall|k: int| 0 <= k < 11 implies (#[trigger] spec_section_body(m, k)).len()
            <= u32::MAX by {
            assert(spec_section_ok(m, k));
        }
    }
}

/// A module that was decoded, if it can be written, is decoded again
/// from its own bytes as the same module: decoding, writing and decoding
/// again changes nothing of what the module is, nor therefore of how any
/// of its functions behaves.
pub proof fn lemma_decode_write_decode(bytes: Seq<u8>)
    requires
        crate::parser::spec_module(bytes) matches Ok(m) && spec_ok_module(m),
    ensures
        crate::parser::spec_module(spec_enc_module(crate::parser::spec_module(bytes)->Ok_0))
            == crate::parser::spec_module(bytes),
{
    lemma_module_round_trip(crate::parser::spec_module(bytes)->Ok_0);
}

/// Whether what the first `k` sections of a module hold can be written,
/// and the bytes of each of their bodies can be counted in 32 bits.
pub open spec fn spec_sections_ok(m: ModuleView, k: int) -> bool {
    forall|j: int|
        0 <= j < k ==> (#[trigger] spec_section_ok(m, j)) && spec_section_body(m, j).len()
            <= u32::MAX
}

/// Writes a module: the bytes that encode it, if it can be written.
/// Decoding the bytes gives the module back.
pub fn encode(m: &Module) -> (r: Option<Vec<u8>>)
    ensures
        r is Some == spec_ok_module(m.deep()),
        r matches Some(v) ==> v@ == spec_enc_module(m.deep()) && crate::parser::spec_module(v@)
            == Ok::<ModuleView, DecodeError>(m.deep()),
{
    let mut out: Vec<u8> = Vec::new();
    out.push(0x00);
    out.push(0x61);
    out.push(0x73);
    out.push(0x6D);
    out.push(0x01);
    out.push(0x00);
    out.push(0x00);
    out.push(0x00);
    let ghost header = out@;
    let ghost mv = m.deep();
    let mut k: u8 = 0;
    proof {
        lemma_ok_module(mv);
    }
    while k < 11
        invariant
            k <= 11,
            mv == m.deep(),
            header == seq![0x00u8, 0x61u8, 0x73u8, 0x6Du8, 0x01u8, 0x00u8, 0x00u8, 0x00u8],
            spec_sections_ok(mv, k as int),
            out@ + spec_enc_sections(mv, k as int) == header + spec_enc_sections(mv, 0),
            spec_ok_module(mv) == (forall|k: int|
                0 <= k < 11 ==> (#[trigger] spec_section_ok(mv, k)) && spec_section_body(
                    mv,
                    k,
                ).len() <= u32::MAX),
        decreases 11 - k,
    {
        let ghost before = out@;
        let body = match section_body(m, k) {
            Some(b) => b,
            None => {
                assert(!spec_section_ok(mv, k as int));
                return None;
            },
        };
        let absent = k == 7 && m.start.is_none();
        if body.len() > u32::MAX as usize {
            assert(!(spec_section_body(mv, k as int).len() <= u32::MAX));
            return None;
        }
        if !absent {
            let id: u8 = k + 1;
            let _ = write_section(&mut out, id, &body);
            assert(id == spec_section_byte(k as int));
        }
        proof {
            assert(before + (spec_enc_nth(mv, k as int) + spec_enc_sections(mv, k + 1)) =~= before
                + spec_enc_nth(mv, k as int) + spec_enc_sections(mv, k + 1));
            if absent {
                assert(before + spec_enc_nth(mv, k as int) =~= before);
            }
            assert(spec_section_ok(mv, k as int) && spec_section_body(mv, k as int).len()
                <= u32::MAX);
            assert(spec_sections_ok(mv, k + 1)) by {
                assert forall|j: int| 0 <= j < k + 1 implies (#[trigger] spec_section_ok(mv, j))
                    && spec_section_body(mv, j).len() <= u32::MAX by {
                    if j < k {
                        assert(spec_sections_ok(mv, k as int));
                    }
                }
            }
        }
        k = k + 1;
    }
    proof {
        assert(out@ + spec_enc_sections(mv, 11) =~= out@);
        lemma_module_round_trip(mv);
    }
    Some(out)
}

} // verus!
