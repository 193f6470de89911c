//! Linking: the host's name-resolution table, the resolution of a module's
//! imports against it, and the evaluation of constant expressions.
use vstd::prelude::*;
use crate::instance::{
    mems_view, FuncAddr, GlobalAddr, GlobalInst, HostFunc, MemAddr, MemInstInner, MemView, Store,
    StoreView, TableAddr, TableInstInner,
};
use crate::numeric::{spec_u32_of, u32_of};
use crate::instance::{FuncInst, ModuleInst};
use crate::machine::{lemma_run_keeps_code, spec_run, spec_start, Machine, MachineView, Status};
use crate::repr::{
    Data, Datamode, Elem, ElemMode, Func, FuncIdx, FuncType, Global, Import, ImportDesc, Inst,
    Limits, MemType, Module, TableType, ValType,
};
use crate::rt::{
    exec_pure, is_pure, read_global, spec_global, spec_is_pure, spec_pure, Error, Ref, Stack, Val,
};

verus! {

/// The two-level name of an import: the module's name and the field's.
#[derive(Debug, Clone, PartialEq, Eq, PartialOrd, Ord)]
pub struct Name {
    pub toplevel: String,
    pub secondlevel: String,
}

impl Name {
    pub fn new(top: &str, second: &str) -> (n: Self)
        ensures
            n.toplevel@ == top@,
            n.secondlevel@ == second@,
    {
        Self { toplevel: top.to_owned(), secondlevel: second.to_owned() }
    }
}

/// What the host offers under a name: the address of an instance of the
/// store.
#[derive(Debug, Copy, Clone, PartialEq, Eq, Structural)]
pub enum ExternVal {
    ExternalFunc(FuncAddr),
    ExternalTable(TableAddr),
    ExternalMem(MemAddr),
    ExternalGlobal(GlobalAddr),
}

/// One entry of the host's table: a name and what stands under it.
#[derive(Debug)]
pub struct Binding {
    pub name: Name,
    pub value: ExternVal,
}

/// The host's name-resolution table. A later entry hides an earlier one of
/// the same name.
#[derive(Debug)]
pub struct Externals {
    pub values: Vec<Binding>,
}

/// What stands under a name in a table: the value of the last entry with
/// that name.
pub open spec fn spec_lookup(values: Seq<Binding>, top: Seq<char>, second: Seq<char>) -> Option<ExternVal>
    decreases values.len(),
{
    if values.len() == 0 {
        None
    } else if values.last().name.toplevel@ == top && values.last().name.secondlevel@ == second {
        Some(values.last().value)
    } else {
        spec_lookup(values.drop_last(), top, second)
    }
}

impl Externals {
    /// The empty table.
    pub fn new() -> (e: Externals)
        ensures
            e.values@.len() == 0,
    {
        Externals { values: Vec::new() }
    }

    /// Puts `value` under `name`.
    pub fn insert(&mut self, name: Name, value: ExternVal)
        ensures
            final(self).values@ == old(self).values@.push(Binding { name, value }),
            spec_lookup(final(self).values@, name.toplevel@, name.secondlevel@) == Some(value),
    {
        self.values.push(Binding { name, value });
    }

    /// What stands under a name.
    pub fn get(&self, top: &String, second: &String) -> (r: Option<ExternVal>)
        ensures
            r == spec_lookup(self.values@, top@, second@),
    {
        let mut i: usize = self.values.len();
        assert(self.values@.take(i as int) =~= self.values@);
        while i > 0
            invariant
                i <= self.values@.len(),
                spec_lookup(self.values@, top@, second@) == spec_lookup(
                    self.values@.take(i as int),
                    top@,
                    second@,
                ),
            decreases i,
        {
            let b = &self.values[i - 1];
            proof {
                assert(self.values@.take(i as int).last() == *b);
                assert(self.values@.take(i as int).drop_last() =~= self.values@.take(i - 1));
            }
            if b.name.toplevel == *top && b.name.secondlevel == *second {
                return Some(b.value);
            }
            i = i - 1;
        }
        None
    }

    /// The function that stands under a name, if a function does.
    pub fn get_func(&self, name: &Name) -> (r: Option<FuncAddr>)
        ensures
            r == match spec_lookup(self.values@, name.toplevel@, name.secondlevel@) {
                Some(ExternVal::ExternalFunc(a)) => Some(a),
                _ => None,
            },
    {
        match self.get(&name.toplevel, &name.secondlevel) {
            Some(ExternVal::ExternalFunc(a)) => Some(a),
            _ => None,
        }
    }
}

/// Why a module could not be instantiated.
#[derive(Debug, Copy, Clone, PartialEq, Eq, Structural)]
pub enum LinkError {
    /// The host offers nothing under the name of an import.
    UnknownImport,
    /// What the host offers is of another type than the import declares.
    ImportTypeMismatch,
    /// The module contradicts itself: an index names nothing, an
    /// initializer is not constant or of the wrong kind, or a memory's
    /// bounds cannot be met.
    Invalid,
    /// A trap while the instance was initialized.
    Trap(Error),
}

/// Whether an instance of the present size `size` and upper bound `max`
/// can stand where the limits `wanted` are declared.
pub open spec fn spec_size_fits(size: nat, max: Option<u32>, wanted: Limits) -> bool {
    &&& size >= wanted.min
    &&& match wanted.max {
        None => true,
        Some(m) => max matches Some(own) && own <= m,
    }
}

pub fn size_fits(size: usize, max: Option<u32>, wanted: Limits) -> (r: bool)
    ensures
        r == spec_size_fits(size as nat, max, wanted),
{
    if size < wanted.min as usize {
        return false;
    }
    match wanted.max {
        None => true,
        Some(m) => match max {
            Some(own) => own <= m,
            None => false,
        },
    }
}

/// What one import resolves to: the host's value under the import's name,
/// if it is of the declared type.
pub open spec fn spec_link_import(
    import: Import,
    types: Seq<FuncType>,
    s: StoreView,
    ext: Seq<Binding>,
) -> Result<ExternVal, LinkError> {
    match spec_lookup(ext, import.module@, import.nm@) {
        None => Err(LinkError::UnknownImport),
        Some(v) => match (import.desc, v) {
            (ImportDesc::Func(t), ExternVal::ExternalFunc(a)) => if t.0 >= types.len() {
                Err(LinkError::Invalid)
            } else if a.0 < s.funcs.len() && s.funcs[a.0 as int].spec_typ()@ == types[t.0 as int]@ {
                Ok(v)
            } else {
                Err(LinkError::ImportTypeMismatch)
            },
            (ImportDesc::Table(tt), ExternVal::ExternalTable(a)) => if a.0 < s.tables.len()
                && s.tables[a.0 as int].typ.reftype == tt.reftype && spec_size_fits(
                s.tables[a.0 as int].elem@.len(),
                s.tables[a.0 as int].typ.limits.max,
                tt.limits,
            ) {
                Ok(v)
            } else {
                Err(LinkError::ImportTypeMismatch)
            },
            (ImportDesc::Mem(mt), ExternVal::ExternalMem(a)) => if a.0 < s.mems.len()
                && spec_size_fits(
                s.mems[a.0 as int].pages() as nat,
                s.mems[a.0 as int].max,
                mt.limits,
            ) {
                Ok(v)
            } else {
                Err(LinkError::ImportTypeMismatch)
            },
            (ImportDesc::Global(gt), ExternVal::ExternalGlobal(a)) => if a.0 < s.globals.len()
                && s.globals[a.0 as int].typ == gt {
                Ok(v)
            } else {
                Err(LinkError::ImportTypeMismatch)
            },
            _ => Err(LinkError::ImportTypeMismatch),
        },
    }
}

/// Resolves one import.
pub fn link_import(import: &Import, types: &Vec<FuncType>, store: &Store, externals: &Externals) -> (r:
    Result<ExternVal, LinkError>)
    ensures
        r == spec_link_import(*import, types@, store@, externals.values@),
{
    let v = match externals.get(&import.module, &import.nm) {
        None => {
            return Err(LinkError::UnknownImport);
        },
        Some(v) => v,
    };
    match (import.desc, v) {
        (ImportDesc::Func(t), ExternVal::ExternalFunc(a)) => {
            if t.0 as usize >= types.len() {
                return Err(LinkError::Invalid);
            }
            if a.0 < store.funcs.len() && store.funcs[a.0].typ().same(&types[t.0 as usize]) {
                Ok(v)
            } else {
                Err(LinkError::ImportTypeMismatch)
            }
        },
        (ImportDesc::Table(tt), ExternVal::ExternalTable(a)) => {
            if a.0 >= store.tables.len() {
                return Err(LinkError::ImportTypeMismatch);
            }
            let t = &store.tables[a.0];
            if t.typ.reftype == tt.reftype && size_fits(t.elem.len(), t.typ.limits.max, tt.limits) {
                Ok(v)
            } else {
                Err(LinkError::ImportTypeMismatch)
            }
        },
        (ImportDesc::Mem(mt), ExternVal::ExternalMem(a)) => {
            if a.0 >= store.mems.len() {
                return Err(LinkError::ImportTypeMismatch);
            }
            let m = &store.mems[a.0];
            assert(store@.mems[a.0 as int] == m@);
            if size_fits(m.pages(), m.max, mt.limits) {
                Ok(v)
            } else {
                Err(LinkError::ImportTypeMismatch)
            }
        },
        (ImportDesc::Global(gt), ExternVal::ExternalGlobal(a)) => {
            if a.0 < store.globals.len() && store.globals[a.0].typ == gt {
                Ok(v)
            } else {
                Err(LinkError::ImportTypeMismatch)
            }
        },
        _ => Err(LinkError::ImportTypeMismatch),
    }
}

/// The addresses that the indices of a module instance stand for, one
/// sequence for each index space.
pub struct AddrsView {
    pub funcs: Seq<FuncAddr>,
    pub tables: Seq<TableAddr>,
    pub mems: Seq<MemAddr>,
    pub globals: Seq<GlobalAddr>,
}

impl AddrsView {
    pub open spec fn empty() -> AddrsView {
        AddrsView {
            funcs: Seq::empty(),
            tables: Seq::empty(),
            mems: Seq::empty(),
            globals: Seq::empty(),
        }
    }

    /// The addresses with one more at the end of the index space that `v`
    /// belongs to.
    pub open spec fn with(self, v: ExternVal) -> AddrsView {
        match v {
            ExternVal::ExternalFunc(a) => AddrsView { funcs: self.funcs.push(a), ..self },
            ExternVal::ExternalTable(a) => AddrsView { tables: self.tables.push(a), ..self },
            ExternVal::ExternalMem(a) => AddrsView { mems: self.mems.push(a), ..self },
            ExternVal::ExternalGlobal(a) => AddrsView { globals: self.globals.push(a), ..self },
        }
    }
}

/// The addresses of a module instance.
#[derive(Debug)]
pub struct Addrs {
    pub funcs: Vec<FuncAddr>,
    pub tables: Vec<TableAddr>,
    pub mems: Vec<MemAddr>,
    pub globals: Vec<GlobalAddr>,
}

impl View for Addrs {
    type V = AddrsView;

    open spec fn view(&self) -> AddrsView {
        AddrsView {
            funcs: self.funcs@,
            tables: self.tables@,
            mems: self.mems@,
            globals: self.globals@,
        }
    }
}

/// What the imports of a module resolve to, in order: the addresses with
/// which its index spaces begin. The first import that does not resolve
/// gives the error.
pub open spec fn spec_link_imports(
    imports: Seq<Import>,
    types: Seq<FuncType>,
    s: StoreView,
    ext: Seq<Binding>,
) -> Result<AddrsView, LinkError>
    decreases imports.len(),
{
    if imports.len() == 0 {
        Ok(AddrsView::empty())
    } else {
        match spec_link_imports(imports.drop_last(), types, s, ext) {
            Err(e) => Err(e),
            Ok(a) => match spec_link_import(imports.last(), types, s, ext) {
                Err(e) => Err(e),
                Ok(v) => Ok(a.with(v)),
            },
        }
    }
}

/// Resolves the imports of a module.
pub fn link_imports(
    imports: &Vec<Import>,
    types: &Vec<FuncType>,
    store: &Store,
    externals: &Externals,
) -> (r: Result<Addrs, LinkError>)
    ensures
        match spec_link_imports(imports@, types@, store@, externals.values@) {
            Ok(a) => r matches Ok(x) && x@ == a,
            Err(e) => r matches Err(x) && x == e,
        },
{
    let mut addrs = Addrs {
        funcs: Vec::new(),
        tables: Vec::new(),
        mems: Vec::new(),
        globals: Vec::new(),
    };
    let mut i: usize = 0;
    assert(imports@.take(0) =~= Seq::<Import>::empty());
    while i < imports.len()
        invariant
            i <= imports@.len(),
            spec_link_imports(imports@.take(i as int), types@, store@, externals.values@) == Ok::<
                AddrsView,
                LinkError,
            >(addrs@),
        decreases imports@.len() - i,
    {
        proof {
            assert(imports@.take(i + 1).drop_last() =~= imports@.take(i as int));
            assert(imports@.take(i + 1).last() == imports@[i as int]);
        }
        match link_import(&imports[i], types, store, externals) {
            Err(e) => {
                proof {
                    lemma_link_imports_err(imports@, types@, store@, externals.values@, i + 1);
                }
                return Err(e);
            },
            Ok(ExternVal::ExternalFunc(a)) => addrs.funcs.push(a),
            Ok(ExternVal::ExternalTable(a)) => addrs.tables.push(a),
            Ok(ExternVal::ExternalMem(a)) => addrs.mems.push(a),
            Ok(ExternVal::ExternalGlobal(a)) => addrs.globals.push(a),
        }
        i = i + 1;
    }
    proof {
        assert(imports@.take(i as int) =~= imports@);
    }
    Ok(addrs)
}

/// Where a prefix of the imports fails to resolve, all of them fail with
/// the same error.
pub proof fn lemma_link_imports_err(
    imports: Seq<Import>,
    types: Seq<FuncType>,
    s: StoreView,
    ext: Seq<Binding>,
    k: int,
)
    requires
        0 <= k <= imports.len(),
        spec_link_imports(imports.take(k), types, s, ext) is Err,
    ensures
        spec_link_imports(imports, types, s, ext) == spec_link_imports(
            imports.take(k),
            types,
            s,
            ext,
        ),
    decreases imports.len() - k,
{
    if k < imports.len() {
        assert(imports.take(k + 1).drop_last() =~= imports.take(k));
        lemma_link_imports_err(imports, types, s, ext, k + 1);
    } else {
        assert(imports.take(k) =~= imports);
    }
}

/// The operand stack after the first `k` instructions of a constant
/// expression, begun on the empty stack. A constant expression is made of
/// instructions that touch only the operand stack, and of `global.get`.
pub open spec fn spec_const_run(
    expr: Seq<Inst>,
    k: nat,
    globals: Seq<GlobalInst>,
    addrs: Seq<GlobalAddr>,
) -> Result<Seq<Val>, LinkError>
    decreases k,
{
    if k == 0 {
        Ok(Seq::empty())
    } else {
        match spec_const_run(expr, (k - 1) as nat, globals, addrs) {
            Err(e) => Err(e),
            Ok(st) => {
                let inst = expr[k - 1];
                if spec_is_pure(inst) {
                    match spec_pure(inst, st) {
                        Err(e) => Err(LinkError::Trap(e)),
                        Ok(st2) => Ok(st2),
                    }
                } else if inst is GlobalGet {
                    match spec_global(inst, st, globals, addrs) {
                        Err(e) => Err(LinkError::Trap(e)),
                        Ok((st2, _)) => Ok(st2),
                    }
                } else {
                    Err(LinkError::Invalid)
                }
            },
        }
    }
}

/// The value of a constant expression: the one value that it leaves on the
/// operand stack.
pub open spec fn spec_const_eval(expr: Seq<Inst>, globals: Seq<GlobalInst>, addrs: Seq<GlobalAddr>) -> Result<
    Val,
    LinkError,
> {
    match spec_const_run(expr, expr.len(), globals, addrs) {
        Err(e) => Err(e),
        Ok(st) => if st.len() == 1 {
            Ok(st[0])
        } else {
            Err(LinkError::Invalid)
        },
    }
}

/// Evaluates a constant expression in a frame of its own.
pub fn const_eval(expr: &Vec<Inst>, globals: &Vec<GlobalInst>, addrs: &Vec<GlobalAddr>) -> (r: Result<
    Val,
    LinkError,
>)
    ensures
        r == spec_const_eval(expr@, globals@, addrs@),
{
    let mut stack = Stack::new();
    let mut k: usize = 0;
    while k < expr.len()
        invariant
            k <= expr@.len(),
            spec_const_run(expr@, k as nat, globals@, addrs@) == Ok::<Seq<Val>, LinkError>(stack@),
        decreases expr@.len() - k,
    {
        let inst = &expr[k];
        if is_pure(inst) {
            match exec_pure(inst, &mut stack) {
                Ok(()) => {},
                Err(e) => {
                    proof {
                        lemma_const_run_err(expr@, globals@, addrs@, (k + 1) as nat);
                    }
                    return Err(LinkError::Trap(e));
                },
            }
        } else if let Inst::GlobalGet(idx) = inst {
            match read_global(*idx, &mut stack, globals, addrs) {
                Ok(()) => {},
                Err(e) => {
                    proof {
                        lemma_const_run_err(expr@, globals@, addrs@, (k + 1) as nat);
                    }
                    return Err(LinkError::Trap(e));
                },
            }
        } else {
            proof {
                lemma_const_run_err(expr@, globals@, addrs@, (k + 1) as nat);
            }
            return Err(LinkError::Invalid);
        }
        k = k + 1;
    }
    if stack.len() == 1 {
        Ok(stack.items[0])
    } else {
        Err(LinkError::Invalid)
    }
}

/// Where a prefix of a constant expression fails, the whole fails with the
/// same error.
pub proof fn lemma_const_run_err(expr: Seq<Inst>, globals: Seq<GlobalInst>, addrs: Seq<GlobalAddr>, k: nat)
    requires
        k <= expr.len(),
        spec_const_run(expr, k, globals, addrs) is Err,
    ensures
        spec_const_run(expr, expr.len(), globals, addrs) == spec_const_run(expr, k, globals, addrs),
    decreases expr.len() - k,
{
    if k < expr.len() {
        lemma_const_run_err(expr, globals, addrs, k + 1);
    }
}

/// The globals that a module defines, each with the value of its
/// initializer, which is of the kind that the global declares.
pub open spec fn spec_eval_globals(
    decl: Seq<Global>,
    globals: Seq<GlobalInst>,
    addrs: Seq<GlobalAddr>,
) -> Result<Seq<GlobalInst>, LinkError>
    decreases decl.len(),
{
    if decl.len() == 0 {
        Ok(Seq::empty())
    } else {
        match spec_eval_globals(decl.drop_last(), globals, addrs) {
            Err(e) => Err(e),
            Ok(done) => match spec_const_eval(decl.last().init@, globals, addrs) {
                Err(e) => Err(e),
                Ok(v) => if v.spec_kind() == decl.last().typ.t {
                    Ok(done.push(GlobalInst { typ: decl.last().typ, value: v }))
                } else {
                    Err(LinkError::Invalid)
                },
            },
        }
    }
}

/// Evaluates the initializers of the globals that a module defines.
pub fn eval_globals(decl: &Vec<Global>, globals: &Vec<GlobalInst>, addrs: &Vec<GlobalAddr>) -> (r:
    Result<Vec<GlobalInst>, LinkError>)
    ensures
        match spec_eval_globals(decl@, globals@, addrs@) {
            Ok(g) => r matches Ok(x) && x@ == g && g.len() == decl@.len(),
            Err(e) => r matches Err(x) && x == e,
        },
{
    let mut done: Vec<GlobalInst> = Vec::new();
    let mut i: usize = 0;
    assert(decl@.take(0) =~= Seq::<Global>::empty());
    while i < decl.len()
        invariant
            i <= decl@.len(),
            done@.len() == i,
            spec_eval_globals(decl@.take(i as int), globals@, addrs@) == Ok::<
                Seq<GlobalInst>,
                LinkError,
            >(done@),
        decreases decl@.len() - i,
    {
        proof {
            assert(decl@.take(i + 1).drop_last() =~= decl@.take(i as int));
            assert(decl@.take(i + 1).last() == decl@[i as int]);
        }
        let g = &decl[i];
        match const_eval(&g.init, globals, addrs) {
            Err(e) => {
                proof {
                    lemma_eval_globals_err(decl@, globals@, addrs@, i + 1);
                }
                return Err(e);
            },
            Ok(v) => {
                if v.kind() != g.typ.t {
                    proof {
                        lemma_eval_globals_err(decl@, globals@, addrs@, i + 1);
                    }
                    return Err(LinkError::Invalid);
                }
                done.push(GlobalInst { typ: g.typ, value: v });
            },
        }
        i = i + 1;
    }
    proof {
        assert(decl@.take(i as int) =~= decl@);
    }
    Ok(done)
}

/// Where a prefix of the globals fails, all of them fail with the same
/// error.
pub proof fn lemma_eval_globals_err(
    decl: Seq<Global>,
    globals: Seq<GlobalInst>,
    addrs: Seq<GlobalAddr>,
    k: int,
)
    requires
        0 <= k <= decl.len(),
        spec_eval_globals(decl.take(k), globals, addrs) is Err,
    ensures
        spec_eval_globals(decl, globals, addrs) == spec_eval_globals(decl.take(k), globals, addrs),
    decreases decl.len() - k,
{
    if k < decl.len() {
        assert(decl.take(k + 1).drop_last() =~= decl.take(k));
        lemma_eval_globals_err(decl, globals, addrs, k + 1);
    } else {
        assert(decl.take(k) =~= decl);
    }
}

/// Where an active segment goes: the address of the table or memory, and
/// the offset within it.
#[derive(Debug, Copy, Clone, PartialEq, Eq, Structural)]
pub struct Place {
    pub addr: usize,
    pub offset: u32,
}

/// The place that an index and an offset expression name: the index must
/// name one of the `count` instances, and the expression must be constant
/// and give an `i32`, which is read as unsigned.
pub open spec fn spec_place(
    offset: Seq<Inst>,
    idx: u32,
    addrs: Seq<usize>,
    count: nat,
    globals: Seq<GlobalInst>,
    gaddrs: Seq<GlobalAddr>,
) -> Result<Place, LinkError> {
    if idx >= addrs.len() || addrs[idx as int] >= count {
        Err(LinkError::Invalid)
    } else {
        match spec_const_eval(offset, globals, gaddrs) {
            Err(e) => Err(e),
            Ok(Val::I32(x)) => Ok(Place { addr: addrs[idx as int], offset: spec_u32_of(x) as u32 }),
            Ok(_) => Err(LinkError::Invalid),
        }
    }
}

/// Where a data segment goes, if it is active: its bytes must lie within
/// the memory, else instantiation traps.
pub open spec fn spec_data_place(
    d: Data,
    mems: Seq<MemView>,
    maddrs: Seq<MemAddr>,
    globals: Seq<GlobalInst>,
    gaddrs: Seq<GlobalAddr>,
) -> Result<Option<Place>, LinkError> {
    match d.mode {
        Datamode::Passive => Ok(None),
        Datamode::Active { memory, offset } => match spec_place(
            offset@,
            memory.0,
            crate::rt::spec_mem_addrs(maddrs),
            mems.len(),
            globals,
            gaddrs,
        ) {
            Err(e) => Err(e),
            Ok(p) => if p.offset + d.init@.len() <= mems[p.addr as int].data.len() {
                Ok(Some(p))
            } else {
                Err(
                    LinkError::Trap(
                        Error::MemoryOutOfBounds { addr: p.offset as u64, len: d.init@.len() as u64 },
                    ),
                )
            },
        },
    }
}

/// An active data segment that ends past the end of its memory, be it by
/// one byte, has no place: instantiation traps.
pub proof fn lemma_data_past_end(
    d: Data,
    mems: Seq<MemView>,
    maddrs: Seq<MemAddr>,
    globals: Seq<GlobalInst>,
    gaddrs: Seq<GlobalAddr>,
)
    requires
        d.mode matches Datamode::Active { memory, offset } && spec_place(
            offset@,
            memory.0,
            crate::rt::spec_mem_addrs(maddrs),
            mems.len(),
            globals,
            gaddrs,
        ) matches Ok(p) && p.offset + d.init@.len() > mems[p.addr as int].data.len(),
    ensures
        spec_data_place(d, mems, maddrs, globals, gaddrs) matches Err(LinkError::Trap(e)) && e
            is MemoryOutOfBounds,
{
}

/// The places of the data segments of a module, in order; the first
/// segment that has no place gives the error.
pub open spec fn spec_data_places(
    datas: Seq<Data>,
    mems: Seq<MemView>,
    maddrs: Seq<MemAddr>,
    globals: Seq<GlobalInst>,
    gaddrs: Seq<GlobalAddr>,
) -> Result<Seq<Option<Place>>, LinkError>
    decreases datas.len(),
{
    if datas.len() == 0 {
        Ok(Seq::empty())
    } else {
        match spec_data_places(datas.drop_last(), mems, maddrs, globals, gaddrs) {
            Err(e) => Err(e),
            Ok(done) => match spec_data_place(datas.last(), mems, maddrs, globals, gaddrs) {
                Err(e) => Err(e),
                Ok(p) => Ok(done.push(p)),
            },
        }
    }
}

/// The memories after the first `k` data segments were copied to their
/// places, in order.
pub open spec fn spec_write_datas(
    mems: Seq<MemView>,
    datas: Seq<Data>,
    places: Seq<Option<Place>>,
    k: nat,
) -> Seq<MemView>
    decreases k,
{
    if k == 0 {
        mems
    } else {
        let prev = spec_write_datas(mems, datas, places, (k - 1) as nat);
        match places[k - 1] {
            None => prev,
            Some(p) => match prev[p.addr as int].spec_fill(p.offset as u64, datas[k - 1].init@) {
                Ok(m) => prev.update(p.addr as int, m),
                Err(_) => prev,
            },
        }
    }
}

/// The slots of the tables of a store.
pub open spec fn tables_elems(tables: Seq<TableInstInner>) -> Seq<Seq<Ref>> {
    Seq::new(tables.len(), |i: int| tables[i].elem@)
}

/// Where an element segment goes, if it is active: each of its function
/// indices must name a function of the instance, and its references must
/// lie within the table, else instantiation traps.
pub open spec fn spec_elem_place(
    e: Elem,
    elems: Seq<Seq<Ref>>,
    taddrs: Seq<TableAddr>,
    nfuncs: nat,
    globals: Seq<GlobalInst>,
    gaddrs: Seq<GlobalAddr>,
) -> Result<Option<Place>, LinkError> {
    match e.mode {
        ElemMode::Active { table, offset } => match spec_place(
            offset@,
            table.0,
            crate::machine::spec_table_addrs(taddrs),
            elems.len(),
            globals,
            gaddrs,
        ) {
            Err(e) => Err(e),
            Ok(p) => if exists|i: int| 0 <= i < e.init@.len() && #[trigger] e.init@[i].0 >= nfuncs {
                Err(LinkError::Invalid)
            } else if p.offset + e.init@.len() <= elems[p.addr as int].len() {
                Ok(Some(p))
            } else {
                Err(LinkError::Trap(Error::TableOutOfBounds))
            },
        },
        _ => Ok(None),
    }
}

/// The places of the element segments of a module, in order; the first
/// segment that has no place gives the error.
pub open spec fn spec_elem_places(
    segs: Seq<Elem>,
    elems: Seq<Seq<Ref>>,
    taddrs: Seq<TableAddr>,
    nfuncs: nat,
    globals: Seq<GlobalInst>,
    gaddrs: Seq<GlobalAddr>,
) -> Result<Seq<Option<Place>>, LinkError>
    decreases segs.len(),
{
    if segs.len() == 0 {
        Ok(Seq::empty())
    } else {
        match spec_elem_places(segs.drop_last(), elems, taddrs, nfuncs, globals, gaddrs) {
            Err(e) => Err(e),
            Ok(done) => match spec_elem_place(segs.last(), elems, taddrs, nfuncs, globals, gaddrs) {
                Err(e) => Err(e),
                Ok(p) => Ok(done.push(p)),
            },
        }
    }
}

/// The references that an element segment writes: for each function index
/// the address that it stands for.
pub open spec fn spec_elem_refs(init: Seq<FuncIdx>, faddrs: Seq<FuncAddr>) -> Seq<Ref> {
    Seq::new(init.len(), |i: int| Ref::Func(faddrs[init[i].0 as int].0))
}

/// The slots of the tables after the first `k` element segments were
/// written to their places, in order.
pub open spec fn spec_write_elems(
    elems: Seq<Seq<Ref>>,
    segs: Seq<Elem>,
    places: Seq<Option<Place>>,
    faddrs: Seq<FuncAddr>,
    k: nat,
) -> Seq<Seq<Ref>>
    decreases k,
{
    if k == 0 {
        elems
    } else {
        let prev = spec_write_elems(elems, segs, places, faddrs, (k - 1) as nat);
        match places[k - 1] {
            None => prev,
            Some(p) => {
                let t = prev[p.addr as int];
                let refs = spec_elem_refs(segs[k - 1].init@, faddrs);
                if p.offset + refs.len() <= t.len() {
                    prev.update(
                        p.addr as int,
                        t.subrange(0, p.offset as int) + refs + t.subrange(
                            p.offset + refs.len(),
                            t.len() as int,
                        ),
                    )
                } else {
                    prev
                }
            },
        }
    }
}

/// Finds the place that an index and an offset expression name.
pub fn place(
    offset: &Vec<Inst>,
    idx: u32,
    addr: Option<usize>,
    count: usize,
    globals: &Vec<GlobalInst>,
    gaddrs: &Vec<GlobalAddr>,
) -> (r: Result<Place, LinkError>)
    ensures
        forall|addrs: Seq<usize>|
            addr == (if idx < addrs.len() {
                Some(addrs[idx as int])
            } else {
                None
            }) ==> r == #[trigger] spec_place(offset@, idx, addrs, count as nat, globals@, gaddrs@),
{
    let a = match addr {
        None => {
            return Err(LinkError::Invalid);
        },
        Some(a) => a,
    };
    if a >= count {
        return Err(LinkError::Invalid);
    }
    match const_eval(offset, globals, gaddrs)? {
        Val::I32(x) => Ok(Place { addr: a, offset: u32_of(x) }),
        _ => Err(LinkError::Invalid),
    }
}

/// Finds the places of the data segments.
pub fn data_places(
    datas: &Vec<Data>,
    mems: &Vec<MemInstInner>,
    maddrs: &Vec<MemAddr>,
    globals: &Vec<GlobalInst>,
    gaddrs: &Vec<GlobalAddr>,
) -> (r: Result<Vec<Option<Place>>, LinkError>)
    ensures
        match spec_data_places(datas@, mems_view(mems@), maddrs@, globals@, gaddrs@) {
            Ok(p) => r matches Ok(x) && x@ == p,
            Err(e) => r matches Err(x) && x == e,
        },
{
    let mut done: Vec<Option<Place>> = Vec::new();
    let mut i: usize = 0;
    assert(datas@.take(0) =~= Seq::<Data>::empty());
    while i < datas.len()
        invariant
            i <= datas@.len(),
            spec_data_places(datas@.take(i as int), mems_view(mems@), maddrs@, globals@, gaddrs@)
                == Ok::<Seq<Option<Place>>, LinkError>(done@),
        decreases datas@.len() - i,
    {
        proof {
            assert(datas@.take(i + 1).drop_last() =~= datas@.take(i as int));
            assert(datas@.take(i + 1).last() == datas@[i as int]);
            lemma_data_places_err(datas@, mems_view(mems@), maddrs@, globals@, gaddrs@, i + 1);
        }
        let d = &datas[i];
        match &d.mode {
            Datamode::Passive => {
                done.push(None);
            },
            Datamode::Active { memory, offset } => {
                let addr = if (memory.0 as usize) < maddrs.len() {
                    Some(maddrs[memory.0 as usize].0)
                } else {
                    None
                };
                let ghost addrs = crate::rt::spec_mem_addrs(maddrs@);
                assert(spec_place(offset@, memory.0, addrs, mems@.len(), globals@, gaddrs@)
                    == spec_place(offset@, memory.0, addrs, mems@.len(), globals@, gaddrs@));
                let p = place(offset, memory.0, addr, mems.len(), globals, gaddrs)?;
                assert(mems_view(mems@)[p.addr as int] == mems@[p.addr as int]@);
                if d.init.len() > mems[p.addr].len() || p.offset as usize > mems[p.addr].len()
                    - d.init.len() {
                    return Err(
                        LinkError::Trap(
                            Error::MemoryOutOfBounds {
                                addr: p.offset as u64,
                                len: d.init.len() as u64,
                            },
                        ),
                    );
                }
                done.push(Some(p));
            },
        }
        i = i + 1;
    }
    proof {
        assert(datas@.take(i as int) =~= datas@);
    }
    Ok(done)
}

/// Where a prefix of the data segments has no places, the error is that of
/// all of them.
pub proof fn lemma_data_places_err(
    datas: Seq<Data>,
    mems: Seq<MemView>,
    maddrs: Seq<MemAddr>,
    globals: Seq<GlobalInst>,
    gaddrs: Seq<GlobalAddr>,
    k: int,
)
    requires
        0 <= k <= datas.len(),
    ensures
        spec_data_places(datas.take(k), mems, maddrs, globals, gaddrs) is Err ==> spec_data_places(
            datas,
            mems,
            maddrs,
            globals,
            gaddrs,
        ) == spec_data_places(datas.take(k), mems, maddrs, globals, gaddrs),
    decreases datas.len() - k,
{
    if k < datas.len() {
        assert(datas.take(k + 1).drop_last() =~= datas.take(k));
        lemma_data_places_err(datas, mems, maddrs, globals, gaddrs, k + 1);
    } else {
        assert(datas.take(k) =~= datas);
    }
}

/// Copies the data segments to their places.
fn write_datas(mems: &mut Vec<MemInstInner>, datas: &Vec<Data>, places: &Vec<Option<Place>>)
    requires
        places@.len() == datas@.len(),
        forall|k: int|
            0 <= k < places@.len() ==> (#[trigger] places@[k] matches Some(p) ==> p.addr < old(
                mems,
            )@.len()),
    ensures
        mems_view(final(mems)@) == spec_write_datas(
            mems_view(old(mems)@),
            datas@,
            places@,
            datas@.len(),
        ),
{
    let mut i: usize = 0;
    while i < datas.len()
        invariant
            i <= datas@.len(),
            places@.len() == datas@.len(),
            mems@.len() == old(mems)@.len(),
            forall|k: int|
                0 <= k < places@.len() ==> (#[trigger] places@[k] matches Some(p) ==> p.addr < mems@.len()),
            mems_view(mems@) == spec_write_datas(mems_view(old(mems)@), datas@, places@, i as nat),
        decreases datas@.len() - i,
    {
        match places[i] {
            None => {},
            Some(p) => {
                let ghost before = mems_view(mems@);
                assert(before[p.addr as int] == mems@[p.addr as int]@);
                let _ = mems[p.addr].fill(p.offset as u64, &datas[i].init);
                assert(mems_view(mems@) =~= before.update(p.addr as int, mems@[p.addr as int]@));
                assert(before[p.addr as int].spec_fill(p.offset as u64, datas@[i as int].init@) is Err
                    ==> mems_view(mems@) =~= before);
            },
        }
        i = i + 1;
    }
}

/// Whether every function index of a segment is below `nfuncs`.
pub fn indices_below(init: &Vec<FuncIdx>, nfuncs: usize) -> (r: bool)
    ensures
        r == !(exists|i: int| 0 <= i < init@.len() && #[trigger] init@[i].0 >= nfuncs),
{
    let mut j: usize = 0;
    while j < init.len()
        invariant
            j <= init@.len(),
            forall|q: int| 0 <= q < j ==> (#[trigger] init@[q]).0 < nfuncs,
        decreases init@.len() - j,
    {
        if init[j].0 as usize >= nfuncs {
            assert(init@[j as int].0 >= nfuncs);
            return false;
        }
        j = j + 1;
    }
    true
}

/// Finds the places of the element segments.
pub fn elem_places(
    segs: &Vec<Elem>,
    tables: &Vec<TableInstInner>,
    taddrs: &Vec<TableAddr>,
    nfuncs: usize,
    globals: &Vec<GlobalInst>,
    gaddrs: &Vec<GlobalAddr>,
) -> (r: Result<Vec<Option<Place>>, LinkError>)
    ensures
        match spec_elem_places(segs@, tables_elems(tables@), taddrs@, nfuncs as nat, globals@, gaddrs@) {
            Ok(p) => r matches Ok(x) && x@ == p,
            Err(e) => r matches Err(x) && x == e,
        },
{
    let mut done: Vec<Option<Place>> = Vec::new();
    let mut i: usize = 0;
    assert(segs@.take(0) =~= Seq::<Elem>::empty());
    while i < segs.len()
        invariant
            i <= segs@.len(),
            spec_elem_places(
                segs@.take(i as int),
                tables_elems(tables@),
                taddrs@,
                nfuncs as nat,
                globals@,
                gaddrs@,
            ) == Ok::<Seq<Option<Place>>, LinkError>(done@),
        decreases segs@.len() - i,
    {
        proof {
            assert(segs@.take(i + 1).drop_last() =~= segs@.take(i as int));
            assert(segs@.take(i + 1).last() == segs@[i as int]);
            lemma_elem_places_err(
                segs@,
                tables_elems(tables@),
                taddrs@,
                nfuncs as nat,
                globals@,
                gaddrs@,
                i + 1,
            );
        }
        let e = &segs[i];
        match &e.mode {
            ElemMode::Active { table, offset } => {
                let addr = if (table.0 as usize) < taddrs.len() {
                    Some(taddrs[table.0 as usize].0)
                } else {
                    None
                };
                let ghost addrs = crate::machine::spec_table_addrs(taddrs@);
                assert(spec_place(offset@, table.0, addrs, tables@.len(), globals@, gaddrs@)
                    == spec_place(offset@, table.0, addrs, tables@.len(), globals@, gaddrs@));
                let p = place(offset, table.0, addr, tables.len(), globals, gaddrs)?;
                if !indices_below(&e.init, nfuncs) {
                    return Err(LinkError::Invalid);
                }
                let size: usize = tables[p.addr].elem.len();
                if e.init.len() > size || p.offset as usize > size - e.init.len() {
                    return Err(LinkError::Trap(Error::TableOutOfBounds));
                }
                done.push(Some(p));
            },
            _ => {
                done.push(None);
            },
        }
        i = i + 1;
    }
    proof {
        assert(segs@.take(i as int) =~= segs@);
    }
    Ok(done)
}

/// Where a prefix of the element segments has no places, the error is that
/// of all of them.
pub proof fn lemma_elem_places_err(
    segs: Seq<Elem>,
    elems: Seq<Seq<Ref>>,
    taddrs: Seq<TableAddr>,
    nfuncs: nat,
    globals: Seq<GlobalInst>,
    gaddrs: Seq<GlobalAddr>,
    k: int,
)
    requires
        0 <= k <= segs.len(),
    ensures
        spec_elem_places(segs.take(k), elems, taddrs, nfuncs, globals, gaddrs) is Err
            ==> spec_elem_places(segs, elems, taddrs, nfuncs, globals, gaddrs) == spec_elem_places(
            segs.take(k),
            elems,
            taddrs,
            nfuncs,
            globals,
            gaddrs,
        ),
    decreases segs.len() - k,
{
    if k < segs.len() {
        assert(segs.take(k + 1).drop_last() =~= segs.take(k));
        lemma_elem_places_err(segs, elems, taddrs, nfuncs, globals, gaddrs, k + 1);
    } else {
        assert(segs.take(k) =~= segs);
    }
}

/// Writes the element segments to their places. The types of the tables
/// stay as they are.
fn write_elems(
    tables: &mut Vec<TableInstInner>,
    segs: &Vec<Elem>,
    places: &Vec<Option<Place>>,
    faddrs: &Vec<FuncAddr>,
)
    requires
        places@.len() == segs@.len(),
        forall|k: int|
            0 <= k < places@.len() ==> (#[trigger] places@[k] matches Some(p) ==> p.addr < old(
                tables,
            )@.len()),
        forall|k: int, i: int|
            0 <= k < segs@.len() && places@[k] is Some && 0 <= i < segs@[k].init@.len() ==> (
            #[trigger] segs@[k].init@[i]).0 < faddrs@.len(),
    ensures
        final(tables)@.len() == old(tables)@.len(),
        forall|a: int| 0 <= a < old(tables)@.len() ==> (#[trigger] final(tables)@[a]).typ == old(tables)@[a].typ,
        tables_elems(final(tables)@) == spec_write_elems(
            tables_elems(old(tables)@),
            segs@,
            places@,
            faddrs@,
            segs@.len(),
        ),
{
    let mut k: usize = 0;
    while k < segs.len()
        invariant
            k <= segs@.len(),
            places@.len() == segs@.len(),
            tables@.len() == old(tables)@.len(),
            forall|q: int|
                0 <= q < places@.len() ==> (#[trigger] places@[q] matches Some(p) ==> p.addr < tables@.len()),
            forall|q: int, i: int|
                0 <= q < segs@.len() && places@[q] is Some && 0 <= i < segs@[q].init@.len() ==> (
                #[trigger] segs@[q].init@[i]).0 < faddrs@.len(),
            forall|a: int| 0 <= a < tables@.len() ==> (#[trigger] tables@[a]).typ == old(tables)@[a].typ,
            tables_elems(tables@) == spec_write_elems(
                tables_elems(old(tables)@),
                segs@,
                places@,
                faddrs@,
                k as nat,
            ),
        decreases segs@.len() - k,
    {
        match places[k] {
            None => {},
            Some(p) => {
                let init = &segs[k].init;
                let size: usize = tables[p.addr].elem.len();
                let ghost before = tables@;
                let ghost t = before[p.addr as int].elem@;
                let ghost refs = spec_elem_refs(init@, faddrs@);
                assert(tables_elems(before)[p.addr as int] == t);
                if init.len() <= size && p.offset as usize <= size - init.len() {
                    let start: usize = p.offset as usize;
                    let mut i: usize = 0;
                    while i < init.len()
                        invariant
                            i <= init@.len(),
                            p.addr < tables@.len(),
                            tables@.len() == before.len(),
                            start == p.offset,
                            start + init@.len() <= t.len() <= usize::MAX,
                            t == before[p.addr as int].elem@,
                            refs == spec_elem_refs(init@, faddrs@),
                            forall|j: int| 0 <= j < init@.len() ==> (#[trigger] init@[j]).0 < faddrs@.len(),
                            forall|a: int|
                                0 <= a < tables@.len() && a != p.addr ==> tables@[a] == before[a],
                            tables@[p.addr as int].typ == before[p.addr as int].typ,
                            tables@[p.addr as int].elem@ =~= t.subrange(0, start as int) + refs.take(
                                i as int,
                            ) + t.subrange(start + i, t.len() as int),
                        decreases init@.len() - i,
                    {
                        let fa = faddrs[init[i].0 as usize];
                        tables[p.addr].elem[start + i] = Ref::Func(fa.0);
                        i = i + 1;
                    }
                    proof {
                        assert(refs.take(init@.len() as int) =~= refs);
                        assert forall|a: int| 0 <= a < tables@.len() implies (#[trigger] tables@[a]).typ
                            == old(tables)@[a].typ by {
                            assert(before[a].typ == old(tables)@[a].typ);
                        }
                        assert(tables_elems(tables@) =~= tables_elems(before).update(
                            p.addr as int,
                            t.subrange(0, p.offset as int) + refs + t.subrange(
                                p.offset + refs.len(),
                                t.len() as int,
                            ),
                        ));
                    }
                }
            },
        }
        k = k + 1;
    }
}

/// Whether every function of a module names one of its `ntypes` function
/// types.
pub open spec fn spec_funcs_typed(funcs: Seq<Func>, ntypes: nat) -> bool {
    forall|k: int| 0 <= k < funcs.len() ==> (#[trigger] funcs[k]).typ.0 < ntypes
}

pub fn funcs_typed(funcs: &Vec<Func>, ntypes: usize) -> (r: bool)
    ensures
        r == spec_funcs_typed(funcs@, ntypes as nat),
{
    let mut k: usize = 0;
    while k < funcs.len()
        invariant
            k <= funcs@.len(),
            forall|j: int| 0 <= j < k ==> (#[trigger] funcs@[j]).typ.0 < ntypes,
        decreases funcs@.len() - k,
    {
        if funcs[k].typ.0 as usize >= ntypes {
            return false;
        }
        k = k + 1;
    }
    true
}

/// Whether every memory of a module can be allocated.
pub open spec fn spec_mems_fit(mems: Seq<MemType>) -> bool {
    forall|k: int| 0 <= k < mems.len() ==> Store::spec_mem_fits(#[trigger] mems[k])
}

pub fn mems_fit(mems: &Vec<MemType>) -> (r: bool)
    ensures
        r == spec_mems_fit(mems@),
{
    let mut k: usize = 0;
    while k < mems.len()
        invariant
            k <= mems@.len(),
            forall|j: int| 0 <= j < k ==> Store::spec_mem_fits(#[trigger] mems@[j]),
        decreases mems@.len() - k,
    {
        if !Store::mem_fits(mems[k]) {
            return false;
        }
        k = k + 1;
    }
    true
}

/// The functions that instantiation appends for a module's own functions:
/// function `k` of the module stands at address `base + k`, has the type
/// that it names, and refers to the module instance at `module`.
pub open spec fn spec_fresh_funcs(
    all: Seq<FuncInst>,
    base: nat,
    funcs: Seq<Func>,
    types: Seq<FuncType>,
    module: usize,
) -> bool {
    &&& all.len() == base + funcs.len()
    &&& forall|k: int|
        0 <= k < funcs.len() ==> (#[trigger] all[base + k] matches FuncInst::Local {
            typ,
            module: m,
            code,
        } && typ@ == types[funcs[k].typ.0 as int]@ && m == module && code == k)
}

/// Consecutive function addresses from `base` on.
pub open spec fn spec_func_range(base: nat, n: nat) -> Seq<FuncAddr> {
    Seq::new(n, |k: int| FuncAddr((base + k) as usize))
}

/// Consecutive table addresses from `base` on.
pub open spec fn spec_table_range(base: nat, n: nat) -> Seq<TableAddr> {
    Seq::new(n, |k: int| TableAddr((base + k) as usize))
}

/// Consecutive memory addresses from `base` on.
pub open spec fn spec_mem_range(base: nat, n: nat) -> Seq<MemAddr> {
    Seq::new(n, |k: int| MemAddr((base + k) as usize))
}

/// Consecutive global addresses from `base` on.
pub open spec fn spec_global_range(base: nat, n: nat) -> Seq<GlobalAddr> {
    Seq::new(n, |k: int| GlobalAddr((base + k) as usize))
}

/// The slots of the tables with those of fresh tables of the given types
/// appended: each has as many slots as its lower bound says, all null.
pub open spec fn spec_fresh_elems(elems: Seq<Seq<Ref>>, tables: Seq<TableType>) -> Seq<Seq<Ref>> {
    elems + Seq::new(
        tables.len(),
        |k: int| Seq::new(tables[k].limits.min as nat, |i: int| Ref::Null(tables[k].reftype)),
    )
}

/// The memories with fresh memories of the given types appended.
pub open spec fn spec_fresh_mems(mems: Seq<MemView>, types: Seq<MemType>) -> Seq<MemView> {
    mems + Seq::new(types.len(), |k: int| Store::spec_fresh_mem(types[k]))
}

/// Appends the functions of a module to the store.
fn alloc_funcs(
    store: &mut Store,
    funcs: &Vec<Func>,
    types: &Vec<FuncType>,
    module: usize,
    addrs: &mut Vec<FuncAddr>,
)
    requires
        spec_funcs_typed(funcs@, types@.len()),
    ensures
        final(store)@ == (StoreView { funcs: final(store)@.funcs, ..old(store)@ }),
        final(store)@.funcs.take(old(store)@.funcs.len() as int) == old(store)@.funcs,
        spec_fresh_funcs(final(store)@.funcs, old(store)@.funcs.len(), funcs@, types@, module),
        final(addrs)@ == old(addrs)@ + spec_func_range(old(store)@.funcs.len(), funcs@.len()),
{
    let ghost base = store@.funcs.len();
    let mut k: usize = 0;
    assert(addrs@ =~= old(addrs)@ + spec_func_range(base, 0));
    assert(store@.funcs.take(base as int) =~= old(store)@.funcs);
    while k < funcs.len()
        invariant
            k <= funcs@.len(),
            base == old(store)@.funcs.len(),
            spec_funcs_typed(funcs@, types@.len()),
            store@ == (StoreView { funcs: store@.funcs, ..old(store)@ }),
            store@.funcs.take(base as int) == old(store)@.funcs,
            spec_fresh_funcs(store@.funcs, base, funcs@.take(k as int), types@, module),
            addrs@ == old(addrs)@ + spec_func_range(base, k as nat),
        decreases funcs@.len() - k,
    {
        let ghost before = store@.funcs;
        let typ = types[funcs[k].typ.0 as usize].duplicate();
        let a = store.allocfunc(typ, module, k);
        addrs.push(a);
        proof {
            assert(store@.funcs.take(base as int) =~= before.take(base as int));
            assert(addrs@ =~= old(addrs)@ + spec_func_range(base, (k + 1) as nat));
            assert forall|j: int| 0 <= j < k + 1 implies (#[trigger] store@.funcs[base + j] matches FuncInst::Local {
                typ,
                module: m,
                code,
            } && typ@ == types@[funcs@.take(k + 1)[j].typ.0 as int]@ && m == module && code == j) by {
                if j < k {
                    assert(store@.funcs[base + j] == before[base + j]);
                    assert(funcs@.take(k as int)[j] == funcs@.take(k + 1)[j]);
                }
            }
        }
        k = k + 1;
    }
    proof {
        assert(funcs@.take(k as int) =~= funcs@);
    }
}

/// Appends the tables of a module to the store, every slot null.
fn alloc_tables(store: &mut Store, tables: &Vec<TableType>, addrs: &mut Vec<TableAddr>)
    ensures
        final(store)@ == (StoreView { tables: final(store)@.tables, ..old(store)@ }),
        final(store)@.tables.len() == old(store)@.tables.len() + tables@.len(),
        final(store)@.tables.take(old(store)@.tables.len() as int) == old(store)@.tables,
        forall|k: int|
            0 <= k < tables@.len() ==> (#[trigger] final(store)@.tables[old(store)@.tables.len() + k]).typ
                == tables@[k],
        tables_elems(final(store)@.tables) == spec_fresh_elems(
            tables_elems(old(store)@.tables),
            tables@,
        ),
        final(addrs)@ == old(addrs)@ + spec_table_range(old(store)@.tables.len(), tables@.len()),
{
    let ghost base = store@.tables.len();
    let mut k: usize = 0;
    assert(addrs@ =~= old(addrs)@ + spec_table_range(base, 0));
    assert(store@.tables.take(base as int) =~= old(store)@.tables);
    assert(tables_elems(store@.tables) =~= spec_fresh_elems(
        tables_elems(old(store)@.tables),
        tables@.take(0),
    ));
    while k < tables.len()
        invariant
            k <= tables@.len(),
            base == old(store)@.tables.len(),
            store@ == (StoreView { tables: store@.tables, ..old(store)@ }),
            store@.tables.len() == base + k,
            store@.tables.take(base as int) == old(store)@.tables,
            forall|j: int| 0 <= j < k ==> (#[trigger] store@.tables[base + j]).typ == tables@[j],
            tables_elems(store@.tables) == spec_fresh_elems(
                tables_elems(old(store)@.tables),
                tables@.take(k as int),
            ),
            addrs@ == old(addrs)@ + spec_table_range(base, k as nat),
        decreases tables@.len() - k,
    {
        let ghost before = store@.tables;
        let t = tables[k];
        let a = store.alloctable(t, Ref::Null(t.reftype));
        addrs.push(a);
        proof {
            assert(store@.tables.drop_last() == before);
            assert(store@.tables.take(base as int) =~= before.take(base as int));
            assert(addrs@ =~= old(addrs)@ + spec_table_range(base, (k + 1) as nat));
            assert forall|j: int| 0 <= j < k + 1 implies (#[trigger] store@.tables[base + j]).typ
                == tables@[j] by {
                if j < k {
                    assert(store@.tables[base + j] == before[base + j]);
                }
            }
            assert(tables_elems(store@.tables) =~= spec_fresh_elems(
                tables_elems(old(store)@.tables),
                tables@.take(k + 1),
            )) by {
                let now = tables_elems(store@.tables);
                let want = spec_fresh_elems(tables_elems(old(store)@.tables), tables@.take(k + 1));
                let was = spec_fresh_elems(tables_elems(old(store)@.tables), tables@.take(k as int));
                assert(now.len() == want.len());
                assert forall|j: int| 0 <= j < now.len() implies now[j] == want[j] by {
                    if j < base + k {
                        assert(store@.tables[j] == before[j]);
                        assert(tables_elems(before)[j] == was[j]);
                    }
                }
            }
        }
        k = k + 1;
    }
    proof {
        assert(tables@.take(k as int) =~= tables@);
    }
}

/// Appends the memories of a module to the store, all bytes zero.
fn alloc_mems(store: &mut Store, mems: &Vec<MemType>, addrs: &mut Vec<MemAddr>)
    requires
        spec_mems_fit(mems@),
    ensures
        final(store)@ == (StoreView {
            mems: spec_fresh_mems(old(store)@.mems, mems@),
            ..old(store)@
        }),
        final(addrs)@ == old(addrs)@ + spec_mem_range(old(store)@.mems.len(), mems@.len()),
{
    let ghost base = store@.mems.len();
    let mut k: usize = 0;
    assert(addrs@ =~= old(addrs)@ + spec_mem_range(base, 0));
    assert(store@.mems =~= spec_fresh_mems(old(store)@.mems, mems@.take(0)));
    while k < mems.len()
        invariant
            k <= mems@.len(),
            base == old(store)@.mems.len(),
            spec_mems_fit(mems@),
            store@ == (StoreView {
                mems: spec_fresh_mems(old(store)@.mems, mems@.take(k as int)),
                ..old(store)@
            }),
            addrs@ == old(addrs)@ + spec_mem_range(base, k as nat),
        decreases mems@.len() - k,
    {
        let ghost before = store@.mems;
        match store.allocmem(mems[k]) {
            Some(a) => {
                addrs.push(a);
            },
            None => {},
        }
        proof {
            assert(addrs@ =~= old(addrs)@ + spec_mem_range(base, (k + 1) as nat));
            assert(store@.mems =~= spec_fresh_mems(old(store)@.mems, mems@.take(k + 1)));
        }
        k = k + 1;
    }
    proof {
        assert(mems@.take(k as int) =~= mems@);
    }
}

/// Appends the globals of a module to the store with their first values.
fn alloc_globals(store: &mut Store, globals: &Vec<GlobalInst>, addrs: &mut Vec<GlobalAddr>)
    ensures
        final(store)@ == (StoreView { globals: old(store)@.globals + globals@, ..old(store)@ }),
        final(addrs)@ == old(addrs)@ + spec_global_range(old(store)@.globals.len(), globals@.len()),
{
    let ghost base = store@.globals.len();
    let mut k: usize = 0;
    assert(addrs@ =~= old(addrs)@ + spec_global_range(base, 0));
    assert(store@.globals =~= old(store)@.globals + globals@.take(0));
    while k < globals.len()
        invariant
            k <= globals@.len(),
            base == old(store)@.globals.len(),
            store@ == (StoreView {
                globals: old(store)@.globals + globals@.take(k as int),
                ..old(store)@
            }),
            addrs@ == old(addrs)@ + spec_global_range(base, k as nat),
        decreases globals@.len() - k,
    {
        let g = globals[k];
        let a = store.allocglobal(g.typ, g.value);
        addrs.push(a);
        proof {
            assert(addrs@ =~= old(addrs)@ + spec_global_range(base, (k + 1) as nat));
            assert(store@.globals =~= old(store)@.globals + globals@.take(k + 1));
        }
        k = k + 1;
    }
    proof {
        assert(globals@.take(k as int) =~= globals@);
    }
}

/// What instantiation makes of a module: the addresses of its index
/// spaces, its new globals, and the slots of all tables and the contents of
/// all memories of the store once the active segments are written.
pub struct Linked {
    pub addrs: AddrsView,
    pub globals: Seq<GlobalInst>,
    pub elems: Seq<Seq<Ref>>,
    pub mems: Seq<MemView>,
}

/// The index spaces of a module instance: what its imports resolve to,
/// then the addresses at which its own definitions will stand.
pub open spec fn spec_fresh_addrs(imp: AddrsView, s: StoreView, m: Module) -> AddrsView {
    AddrsView {
        funcs: imp.funcs + spec_func_range(s.funcs.len(), m.funcs@.len()),
        tables: imp.tables + spec_table_range(s.tables.len(), m.tables@.len()),
        mems: imp.mems + spec_mem_range(s.mems.len(), m.mems@.len()),
        globals: imp.globals + spec_global_range(s.globals.len(), m.globals@.len()),
    }
}

/// Instantiation, as far as it can fail: the imports are resolved in
/// order; the module's own functions, memories and globals are checked and
/// its globals' initializers evaluated; then the offset of each active
/// segment is evaluated and the segment is held against the bounds of its
/// table or memory. Offsets and initializers see the imported globals.
pub open spec fn spec_instantiate(m: Module, s: StoreView, ext: Seq<Binding>) -> Result<Linked, LinkError> {
    match spec_link_imports(m.imports@, m.types@, s, ext) {
        Err(e) => Err(e),
        Ok(imp) => if !spec_funcs_typed(m.funcs@, m.types@.len()) || !spec_mems_fit(m.mems@) {
            Err(LinkError::Invalid)
        } else {
            match spec_eval_globals(m.globals@, s.globals, imp.globals) {
                Err(e) => Err(e),
                Ok(globals) => {
                    let addrs = spec_fresh_addrs(imp, s, m);
                    let elems = spec_fresh_elems(tables_elems(s.tables), m.tables@);
                    let mems = spec_fresh_mems(s.mems, m.mems@);
                    if m.start matches Some(f) && f.0 >= addrs.funcs.len() {
                        Err(LinkError::Invalid)
                    } else {
                        match spec_elem_places(
                            m.elems@,
                            elems,
                            addrs.tables,
                            addrs.funcs.len(),
                            s.globals,
                            imp.globals,
                        ) {
                            Err(e) => Err(e),
                            Ok(ep) => match spec_data_places(
                                m.datas@,
                                mems,
                                addrs.mems,
                                s.globals,
                                imp.globals,
                            ) {
                                Err(e) => Err(e),
                                Ok(dp) => Ok(
                                    Linked {
                                        addrs,
                                        globals,
                                        elems: spec_write_elems(
                                            elems,
                                            m.elems@,
                                            ep,
                                            addrs.funcs,
                                            m.elems@.len(),
                                        ),
                                        mems: spec_write_datas(mems, m.datas@, dp, m.datas@.len()),
                                    },
                                ),
                            },
                        }
                    }
                },
            }
        },
    }
}

/// The store `after` is the store `before` with the module `m` installed
/// as `l` says: its instance is the last module instance and holds the
/// module's types, code, exports and start function and the linked
/// addresses; its functions, tables, memories and globals are appended;
/// and the tables and memories hold what the active segments wrote.
pub open spec fn spec_installed(m: Module, before: StoreView, after: StoreView, l: Linked) -> bool {
    let mi = after.modules.last();
    &&& after.modules.len() == before.modules.len() + 1
    &&& after.modules.drop_last() == before.modules
    &&& mi.types == m.types
    &&& mi.funcs == m.funcs
    &&& mi.exports == m.exports
    &&& mi.start == m.start
    &&& mi.func_addrs@ == l.addrs.funcs
    &&& mi.table_addrs@ == l.addrs.tables
    &&& mi.mem_addrs@ == l.addrs.mems
    &&& mi.global_addrs@ == l.addrs.globals
    &&& after.funcs.take(before.funcs.len() as int) == before.funcs
    &&& spec_fresh_funcs(
        after.funcs,
        before.funcs.len(),
        m.funcs@,
        m.types@,
        before.modules.len() as usize,
    )
    &&& after.globals == before.globals + l.globals
    &&& after.mems == l.mems
    &&& after.tables.len() == before.tables.len() + m.tables@.len()
    &&& forall|a: int|
        0 <= a < before.tables.len() ==> (#[trigger] after.tables[a]).typ == before.tables[a].typ
    &&& forall|k: int|
        0 <= k < m.tables@.len() ==> (#[trigger] after.tables[before.tables.len() + k]).typ
            == m.tables@[k]
    &&& tables_elems(after.tables) == l.elems
}

/// The places that were found for element segments name tables of the
/// store, and the segments that have a place name functions of the
/// instance.
pub proof fn lemma_elem_places_valid(
    segs: Seq<Elem>,
    elems: Seq<Seq<Ref>>,
    taddrs: Seq<TableAddr>,
    nfuncs: nat,
    globals: Seq<GlobalInst>,
    gaddrs: Seq<GlobalAddr>,
)
    requires
        spec_elem_places(segs, elems, taddrs, nfuncs, globals, gaddrs) is Ok,
    ensures
        ({
            let places = spec_elem_places(segs, elems, taddrs, nfuncs, globals, gaddrs)->Ok_0;
            &&& places.len() == segs.len()
            &&& forall|k: int|
                0 <= k < places.len() ==> (#[trigger] places[k] matches Some(p) ==> p.addr < elems.len())
            &&& forall|k: int, i: int|
                0 <= k < segs.len() && places[k] is Some && 0 <= i < segs[k].init@.len() ==> (
                #[trigger] segs[k].init@[i]).0 < nfuncs
        }),
    decreases segs.len(),
{
    if segs.len() > 0 {
        lemma_elem_places_valid(segs.drop_last(), elems, taddrs, nfuncs, globals, gaddrs);
        let places = spec_elem_places(segs, elems, taddrs, nfuncs, globals, gaddrs)->Ok_0;
        let done = spec_elem_places(segs.drop_last(), elems, taddrs, nfuncs, globals, gaddrs)->Ok_0;
        assert forall|k: int| 0 <= k < places.len() implies (#[trigger] places[k] matches Some(p)
            ==> p.addr < elems.len()) by {
            if k < done.len() {
                assert(places[k] == done[k]);
            }
        }
        assert forall|k: int, i: int|
            0 <= k < segs.len() && places[k] is Some && 0 <= i < segs[k].init@.len() implies (
        #[trigger] segs[k].init@[i]).0 < nfuncs by {
            if k < done.len() {
                assert(places[k] == done[k]);
                assert(segs[k] == segs.drop_last()[k]);
                assert(segs.drop_last()[k].init@[i].0 < nfuncs);
            } else {
                let e = segs.last();
                assert(segs[k] == e);
                assert(spec_elem_place(e, elems, taddrs, nfuncs, globals, gaddrs) == Ok::<
                    Option<Place>,
                    LinkError,
                >(places[k]));
                if e.init@[i].0 >= nfuncs {
                    assert(exists|j: int| 0 <= j < e.init@.len() && #[trigger] e.init@[j].0 >= nfuncs);
                }
            }
        }
    }
}

/// The places that were found for data segments name memories of the
/// store.
pub proof fn lemma_data_places_valid(
    datas: Seq<Data>,
    mems: Seq<MemView>,
    maddrs: Seq<MemAddr>,
    globals: Seq<GlobalInst>,
    gaddrs: Seq<GlobalAddr>,
)
    requires
        spec_data_places(datas, mems, maddrs, globals, gaddrs) is Ok,
    ensures
        ({
            let places = spec_data_places(datas, mems, maddrs, globals, gaddrs)->Ok_0;
            &&& places.len() == datas.len()
            &&& forall|k: int|
                0 <= k < places.len() ==> (#[trigger] places[k] matches Some(p) ==> p.addr < mems.len())
        }),
    decreases datas.len(),
{
    if datas.len() > 0 {
        lemma_data_places_valid(datas.drop_last(), mems, maddrs, globals, gaddrs);
        let places = spec_data_places(datas, mems, maddrs, globals, gaddrs)->Ok_0;
        let done = spec_data_places(datas.drop_last(), mems, maddrs, globals, gaddrs)->Ok_0;
        assert forall|k: int| 0 <= k < places.len() implies (#[trigger] places[k] matches Some(p)
            ==> p.addr < mems.len()) by {
            if k < done.len() {
                assert(places[k] == done[k]);
            }
        }
    }
}

/// Takes back what was appended to the functions, tables and memories of a
/// store.
fn rollback(store: &mut Store, funcs: usize, tables: usize, mems: usize)
    requires
        funcs <= old(store)@.funcs.len(),
        tables <= old(store)@.tables.len(),
        mems <= old(store)@.mems.len(),
    ensures
        final(store)@ == (StoreView {
            funcs: old(store)@.funcs.take(funcs as int),
            tables: old(store)@.tables.take(tables as int),
            mems: old(store)@.mems.take(mems as int),
            ..old(store)@
        }),
{
    store.funcs.truncate(funcs);
    store.tables.truncate(tables);
    store.mems.truncate(mems);
    assert(mems_view(store.mems@) =~= mems_view(old(store).mems@).take(mems as int));
}

/// Links a module and installs its instance: resolves its imports against
/// the host's table, allocates its functions, tables, memories and globals
/// in the store, writes its active element and data segments, and returns
/// the address of the new module instance. Where anything fails the store
/// is left as it was.
fn install(module: Module, store: &mut Store, externals: &Externals) -> (r: Result<usize, LinkError>)
    ensures
        match spec_instantiate(module, old(store)@, externals.values@) {
            Err(e) => r == Err::<usize, LinkError>(e) && final(store)@ == old(store)@,
            Ok(l) => r == Ok::<usize, LinkError>(old(store)@.modules.len() as usize)
                && spec_installed(module, old(store)@, final(store)@, l),
        },
{
    let imp = link_imports(&module.imports, &module.types, store, externals)?;
    if !funcs_typed(&module.funcs, module.types.len()) || !mems_fit(&module.mems) {
        return Err(LinkError::Invalid);
    }
    let globals = eval_globals(&module.globals, &store.globals, &imp.globals)?;
    let n_funcs: usize = store.funcs.len();
    let n_tables: usize = store.tables.len();
    let n_mems: usize = store.mems.len();
    let addr: usize = store.modules.len();
    let ghost imported = imp@;
    let mut addrs = imp;
    alloc_funcs(store, &module.funcs, &module.types, addr, &mut addrs.funcs);
    alloc_tables(store, &module.tables, &mut addrs.tables);
    alloc_mems(store, &module.mems, &mut addrs.mems);
    let ghost fresh = spec_fresh_addrs(imported, old(store)@, module);
    let ghost elems0 = spec_fresh_elems(tables_elems(old(store)@.tables), module.tables@);
    let ghost mems0 = spec_fresh_mems(old(store)@.mems, module.mems@);
    proof {
        assert(addrs@.funcs == fresh.funcs);
        assert(addrs@.tables == fresh.tables);
        assert(addrs@.mems == fresh.mems);
        assert(store@.mems.take(n_mems as int) =~= old(store)@.mems);
    }
    let start_ok = match module.start {
        Some(f) => (f.0 as usize) < addrs.funcs.len(),
        None => true,
    };
    if !start_ok {
        rollback(store, n_funcs, n_tables, n_mems);
        return Err(LinkError::Invalid);
    }
    let ep = match elem_places(
        &module.elems,
        &store.tables,
        &addrs.tables,
        addrs.funcs.len(),
        &store.globals,
        &addrs.globals,
    ) {
        Ok(p) => p,
        Err(e) => {
            rollback(store, n_funcs, n_tables, n_mems);
            return Err(e);
        },
    };
    let dp = match data_places(
        &module.datas,
        &store.mems,
        &addrs.mems,
        &store.globals,
        &addrs.globals,
    ) {
        Ok(p) => p,
        Err(e) => {
            rollback(store, n_funcs, n_tables, n_mems);
            return Err(e);
        },
    };
    proof {
        lemma_elem_places_valid(
            module.elems@,
            elems0,
            fresh.tables,
            fresh.funcs.len(),
            old(store)@.globals,
            imported.globals,
        );
        lemma_data_places_valid(
            module.datas@,
            mems0,
            fresh.mems,
            old(store)@.globals,
            imported.globals,
        );
    }
    let ghost allocated = store@;
    write_elems(&mut store.tables, &module.elems, &ep, &addrs.funcs);
    write_datas(&mut store.mems, &module.datas, &dp);
    alloc_globals(store, &globals, &mut addrs.globals);
    proof {
        assert(addrs@.globals == fresh.globals);
        assert forall|a: int| 0 <= a < n_tables implies (#[trigger] store@.tables[a]).typ == old(
            store,
        )@.tables[a].typ by {
            assert(allocated.tables[a] == allocated.tables.take(n_tables as int)[a]);
        }
    }
    let ghost before_push = store@.modules;
    store.modules.push(
        ModuleInst {
            types: module.types,
            funcs: module.funcs,
            func_addrs: addrs.funcs,
            mem_addrs: addrs.mems,
            table_addrs: addrs.tables,
            global_addrs: addrs.globals,
            exports: module.exports,
            start: module.start,
        },
    );
    proof {
        assert(store@.modules.drop_last() =~= before_push);
    }
    Ok(addr)
}

/// The place of the last of `names` that is `top`.`second`, if there is
/// one.
pub open spec fn spec_place_of(names: Seq<Name>, top: Seq<char>, second: Seq<char>) -> Option<usize>
    decreases names.len(),
{
    if names.len() == 0 {
        None
    } else if names.last().toplevel@ == top && names.last().secondlevel@ == second {
        Some((names.len() - 1) as usize)
    } else {
        spec_place_of(names.drop_last(), top, second)
    }
}

/// The place of the last of `names` that is `top`.`second`.
pub fn place_of(names: &Vec<Name>, top: &String, second: &String) -> (r: Option<usize>)
    ensures
        r == spec_place_of(names@, top@, second@),
{
    let mut i: usize = names.len();
    assert(names@.take(i as int) =~= names@);
    while i > 0
        invariant
            i <= names@.len(),
            spec_place_of(names@, top@, second@) == spec_place_of(names@.take(i as int), top@, second@),
        decreases i,
    {
        let n = &names[i - 1];
        proof {
            assert(names@.take(i as int).last() == *n);
            assert(names@.take(i as int).drop_last() =~= names@.take(i - 1));
        }
        if n.toplevel == *top && n.secondlevel == *second {
            return Some(i - 1);
        }
        i = i - 1;
    }
    None
}

/// A function of the host that stands for an import: the import's name,
/// its type, and the place of the name among the names of the host.
pub struct Offer {
    pub top: Seq<char>,
    pub second: Seq<char>,
    pub typ: (Seq<ValType>, Seq<ValType>),
    pub place: usize,
}

/// The functions of the host that stand for the imports of a module, in
/// the order of the imports: one for each import of a function whose type
/// the module declares and whose name is among the names of the host.
pub open spec fn spec_offers(imports: Seq<Import>, types: Seq<FuncType>, names: Seq<Name>) -> Seq<Offer>
    decreases imports.len(),
{
    if imports.len() == 0 {
        Seq::empty()
    } else {
        let rest = spec_offers(imports.drop_last(), types, names);
        let import = imports.last();
        match (import.desc, spec_place_of(names, import.module@, import.nm@)) {
            (ImportDesc::Func(t), Some(place)) => if t.0 < types.len() {
                rest.push(
                    Offer { top: import.module@, second: import.nm@, typ: types[t.0 as int]@, place },
                )
            } else {
                rest
            },
            _ => rest,
        }
    }
}

/// The function instance `f` at the address `addr` and the binding `b` are
/// what was made for the offer `o`: a function of the host of the offer's
/// type, known by the offer's place, and bound to the offer's name.
pub open spec fn spec_offered(f: FuncInst, b: Binding, o: Offer, addr: int) -> bool {
    &&& f is External
    &&& f.spec_typ()@ == o.typ
    &&& f->func == HostFunc(o.place)
    &&& b.name.toplevel@ == o.top
    &&& b.name.secondlevel@ == o.second
    &&& b.value == ExternVal::ExternalFunc(FuncAddr(addr as usize))
}

/// The store `after` is the store `before` with one function of the host
/// appended for each offer, and `values` binds each offer's name to the
/// address of its function.
pub open spec fn spec_host_table(
    before: StoreView,
    after: StoreView,
    values: Seq<Binding>,
    offers: Seq<Offer>,
) -> bool {
    &&& after.modules == before.modules
    &&& after.tables == before.tables
    &&& after.mems == before.mems
    &&& after.globals == before.globals
    &&& after.funcs.len() == before.funcs.len() + offers.len()
    &&& after.funcs.take(before.funcs.len() as int) == before.funcs
    &&& values.len() == offers.len()
    &&& forall|k: int|
        0 <= k < offers.len() ==> spec_offered(
            after.funcs[before.funcs.len() + k],
            values[k],
            #[trigger] offers[k],
            before.funcs.len() + k,
        )
}

/// Puts into the store a function of the host for each function that
/// `module` imports under one of the names of the host, with the type that
/// the import declares, and returns the table that binds the names to
/// them. The host knows each of its functions by the place of its name in
/// `names`; of two equal names the later counts.
pub fn host_table(module: &Module, store: &mut Store, names: &Vec<Name>) -> (r: Externals)
    ensures
        spec_host_table(
            old(store)@,
            final(store)@,
            r.values@,
            spec_offers(module.imports@, module.types@, names@),
        ),
{
    let mut externals = Externals::new();
    let mut i: usize = 0;
    assert(module.imports@.take(0) =~= Seq::<Import>::empty());
    assert(store@.funcs.take(store@.funcs.len() as int) =~= store@.funcs);
    while i < module.imports.len()
        invariant
            i <= module.imports@.len(),
            spec_host_table(
                old(store)@,
                store@,
                externals.values@,
                spec_offers(module.imports@.take(i as int), module.types@, names@),
            ),
        decreases module.imports@.len() - i,
    {
        let import = &module.imports[i];
        let ghost done = spec_offers(module.imports@.take(i as int), module.types@, names@);
        let ghost was = store@;
        let ghost bound = externals.values@;
        proof {
            assert(module.imports@.take(i + 1).drop_last() =~= module.imports@.take(i as int));
            assert(module.imports@.take(i + 1).last() == *import);
        }
        if let ImportDesc::Func(t) = import.desc {
            if let Some(functype) = module.typ(t) {
                if let Some(place) = place_of(names, &import.module, &import.nm) {
                    let addr = store.allochostfunc(functype.duplicate(), HostFunc(place));
                    externals.insert(
                        Name::new(import.module.as_str(), import.nm.as_str()),
                        ExternVal::ExternalFunc(addr),
                    );
                    proof {
                        let offers = spec_offers(module.imports@.take(i + 1), module.types@, names@);
                        let n = old(store)@.funcs.len();
                        assert(offers == done.push(offers.last()));
                        assert(store@.funcs.take(n as int) =~= was.funcs.take(n as int));
                        assert forall|k: int| 0 <= k < offers.len() implies spec_offered(
                            store@.funcs[n + k],
                            externals.values@[k],
                            #[trigger] offers[k],
                            n + k,
                        ) by {
                            if k < done.len() {
                                assert(offers[k] == done[k]);
                                assert(store@.funcs[n + k] == was.funcs[n + k]);
                                assert(externals.values@[k] == bound[k]);
                            }
                        }
                        assert(spec_host_table(old(store)@, store@, externals.values@, offers));
                    }
                } else {
                    assert(spec_offers(module.imports@.take(i + 1), module.types@, names@) == done);
                }
            } else {
                assert(spec_offers(module.imports@.take(i + 1), module.types@, names@) == done);
            }
        } else {
            assert(spec_offers(module.imports@.take(i + 1), module.types@, names@) == done);
        }
        i = i + 1;
    }
    assert(module.imports@.take(i as int) =~= module.imports@);
    externals
}

/// Two sequences of tables of the same types with the same slots.
pub open spec fn spec_same_tables(a: Seq<TableInstInner>, b: Seq<TableInstInner>) -> bool {
    &&& a.len() == b.len()
    &&& forall|i: int|
        0 <= i < a.len() ==> (#[trigger] a[i]).typ == b[i].typ && a[i].elem@ == b[i].elem@
}

/// The store `after` holds what the store `before` holds: the same
/// functions, module instances, memories and globals, and tables of the
/// same types with the same slots.
pub open spec fn spec_unchanged(after: StoreView, before: StoreView) -> bool {
    &&& after.funcs == before.funcs
    &&& after.modules == before.modules
    &&& after.mems == before.mems
    &&& after.globals == before.globals
    &&& spec_same_tables(after.tables, before.tables)
}

/// The store, the machine and the status once the start function of the
/// module instance at `at` was entered and run for at most `fuel` steps, in
/// the store `s` in which the instance was just installed. An instance
/// without a start function leaves the machine done.
pub open spec fn spec_boot(s: StoreView, m: MachineView, at: usize, fuel: nat) -> (
    StoreView,
    MachineView,
    Status,
) {
    let (m1, first) = spec_start(s, m, at);
    if first is Trapped {
        (s, m1, first)
    } else {
        spec_run(s, m1, fuel)
    }
}

/// What instantiation hands back once the instance is installed and the
/// start function was run, `boot` being the outcome of that run and
/// `before` the store before instantiation. A trap of the start function
/// is the failure of instantiation, and the store then holds again what it
/// held before. Any other status is handed back with the address of the
/// instance: done, or what the embedder has to answer or to continue.
pub open spec fn spec_started(
    r: Result<(usize, Status), LinkError>,
    after: StoreView,
    machine: MachineView,
    before: StoreView,
    boot: (StoreView, MachineView, Status),
) -> bool {
    &&& machine == boot.1
    &&& match boot.2 {
        Status::Trapped(e) => r == Err::<(usize, Status), LinkError>(LinkError::Trap(e))
            && spec_unchanged(after, before),
        status => r == Ok::<(usize, Status), LinkError>((before.modules.len() as usize, status))
            && after == boot.0,
    }
}

/// Copies of the tables, memories and globals of a store.
struct Saved {
    tables: Vec<TableInstInner>,
    mems: Vec<MemInstInner>,
    globals: Vec<GlobalInst>,
}

/// A copy of the slots of a table.
fn copy_refs(refs: &Vec<Ref>) -> (r: Vec<Ref>)
    ensures
        r@ == refs@,
{
    let mut out: Vec<Ref> = Vec::new();
    let mut i: usize = 0;
    while i < refs.len()
        invariant
            i <= refs@.len(),
            out@ == refs@.take(i as int),
        decreases refs@.len() - i,
    {
        out.push(refs[i]);
        i = i + 1;
        assert(out@ =~= refs@.take(i as int));
    }
    assert(refs@.take(i as int) =~= refs@);
    out
}

/// A copy of the contents of a memory.
fn copy_data(bytes: &Vec<u8>) -> (r: Vec<u8>)
    ensures
        r@ == bytes@,
{
    let mut out: Vec<u8> = Vec::new();
    let mut i: usize = 0;
    while i < bytes.len()
        invariant
            i <= bytes@.len(),
            out@ == bytes@.take(i as int),
        decreases bytes@.len() - i,
    {
        out.push(bytes[i]);
        i = i + 1;
        assert(out@ =~= bytes@.take(i as int));
    }
    assert(bytes@.take(i as int) =~= bytes@);
    out
}

/// Copies what a running function can write and what segments are written
/// to.
fn save(store: &Store) -> (r: Saved)
    ensures
        spec_same_tables(r.tables@, store@.tables),
        mems_view(r.mems@) == store@.mems,
        r.globals@ == store@.globals,
{
    let mut tables: Vec<TableInstInner> = Vec::new();
    let mut i: usize = 0;
    while i < store.tables.len()
        invariant
            i <= store.tables@.len(),
            tables@.len() == i,
            spec_same_tables(tables@, store.tables@.take(i as int)),
        decreases store.tables@.len() - i,
    {
        let t = &store.tables[i];
        tables.push(TableInstInner { typ: t.typ, elem: copy_refs(&t.elem) });
        i = i + 1;
    }
    assert(store.tables@.take(i as int) =~= store.tables@);
    let mut mems: Vec<MemInstInner> = Vec::new();
    let mut j: usize = 0;
    while j < store.mems.len()
        invariant
            j <= store.mems@.len(),
            mems@.len() == j,
            mems_view(mems@) == mems_view(store.mems@).take(j as int),
        decreases store.mems@.len() - j,
    {
        let m = &store.mems[j];
        let ghost was = mems@;
        let copy = MemInstInner { data: copy_data(&m.data), max: m.max };
        assert(copy@ == store.mems@[j as int]@);
        mems.push(copy);
        j = j + 1;
        assert(mems_view(mems@) =~= mems_view(store.mems@).take(j as int)) by {
            assert forall|x: int| 0 <= x < j implies mems_view(mems@)[x] == mems_view(
                store.mems@,
            ).take(j as int)[x] by {
                if x < j - 1 {
                    assert(mems@[x] == was[x]);
                    assert(mems_view(was)[x] == mems_view(store.mems@).take(j - 1)[x]);
                }
            }
        }
    }
    assert(mems_view(store.mems@).take(j as int) =~= mems_view(store.mems@));
    let mut globals: Vec<GlobalInst> = Vec::new();
    let mut k: usize = 0;
    while k < store.globals.len()
        invariant
            k <= store.globals@.len(),
            globals@ == store.globals@.take(k as int),
        decreases store.globals@.len() - k,
    {
        globals.push(store.globals[k]);
        k = k + 1;
        assert(globals@ =~= store.globals@.take(k as int));
    }
    assert(store.globals@.take(k as int) =~= store.globals@);
    Saved { tables, mems, globals }
}

/// Instantiates a module: resolves its imports against the host's table,
/// allocates its functions, tables, memories and globals in the store,
/// writes its active element and data segments, and then enters the start
/// function, if the module has one, and runs it on `machine` for at most
/// `fuel` steps. The machine is emptied first.
///
/// Where the module cannot be linked, or a segment does not fit, the store
/// is left as it was. Where the start function traps, instantiation fails
/// with that trap and the store holds again what it held before. Otherwise
/// the result is the address of the new module instance and the status of
/// the machine: done, or, where the start function asks the embedder or has
/// steps left to run, what the embedder has to answer or to continue.
pub fn instantiate(
    module: Module,
    store: &mut Store,
    externals: &Externals,
    machine: &mut Machine,
    fuel: u64,
) -> (r: Result<(usize, Status), LinkError>)
    ensures
        match spec_instantiate(module, old(store)@, externals.values@) {
            Err(e) => r == Err::<(usize, Status), LinkError>(e) && final(store)@ == old(store)@
                && final(machine)@ == old(machine)@.reset(),
            Ok(l) => exists|mid: StoreView|
                spec_installed(module, old(store)@, mid, l) && spec_started(
                    r,
                    final(store)@,
                    final(machine)@,
                    old(store)@,
                    #[trigger] spec_boot(
                        mid,
                        old(machine)@.reset(),
                        old(store)@.modules.len() as usize,
                        fuel as nat,
                    ),
                ),
        },
{
    machine.reset();
    let saved = match module.start {
        Some(_) => Some(save(store)),
        None => None,
    };
    let ghost starts = module.start is Some;
    let n_funcs: usize = store.funcs.len();
    let n_modules: usize = store.modules.len();
    let at = install(module, store, externals)?;
    let ghost mid = store@;
    let first = machine.start(store, at);
    let status = match first {
        Status::Trapped(_) => first,
        _ => machine.execute(store, fuel),
    };
    proof {
        lemma_run_keeps_code(mid, spec_start(mid, old(machine)@.reset(), at).0, fuel as nat);
    }
    let ghost boot = spec_boot(mid, old(machine)@.reset(), at, fuel as nat);
    assert(boot == (store@, machine@, status));
    match status {
        Status::Trapped(e) => {
            match saved {
                Some(s) => {
                    store.funcs.truncate(n_funcs);
                    store.modules.truncate(n_modules);
                    store.tables = s.tables;
                    store.mems = s.mems;
                    store.globals = s.globals;
                    proof {
                        assert(store@.funcs =~= old(store)@.funcs);
                        assert(store@.modules =~= old(store)@.modules);
                    }
                },
                None => {
                    assert(false);
                },
            }
            Err(LinkError::Trap(e))
        },
        _ => Ok((at, status)),
    }
}

} // verus!
