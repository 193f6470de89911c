//! The control part of the machine: frames, labels, calls and branches, and
//! the loop that runs instructions one by one.
use vstd::prelude::*;
use crate::instance::{
    mems_view, FuncAddr, FuncInst, GlobalInst, HostFunc, MemInstInner, ModuleInst, Store,
    StoreView, TableAddr, TableInstInner,
};
use crate::numeric::{spec_u32_of, u32_of};
use crate::repr::{
    BlockType, FloatOp, FuncType, Inst, Locals as LocalDecl, TableIdx, TypeIdx, ValType,
};
use crate::rt::{
    default_value, exec_global, exec_local, exec_memory, exec_pure, kinds_match, spec_default_value,
    spec_global, spec_kinds, spec_local, spec_memory, spec_pop_i32, spec_pure, spec_resolve, Error,
    Exception, Locals, Ref, Stack, Val,
};

verus! {

/// A label: a control target of the function that is running. A branch to
/// it keeps `arity` values on top of the first `height` values of the
/// operand stack. `pc` is the index of the next instruction within the
/// label's own instruction sequence; `at` is the index, within the sequence
/// of the label below, of the block that opened this one, and `alt` says
/// that it opened the second sequence of a conditional. A branch to a loop's
/// label starts the loop again; a branch to any other label leaves its
/// block.
#[derive(Debug, Copy, Clone, PartialEq, Eq, Structural)]
pub struct Label {
    pub arity: usize,
    pub height: usize,
    pub pc: usize,
    pub at: usize,
    pub alt: bool,
    pub is_loop: bool,
}

/// A frame: one call that has not returned. `func` is the address of the
/// function, `module` the address of its module instance and `code` the
/// place of the function among the instance's own; the three bases are the
/// heights of the label stack, of the locals and of the operand stack when
/// the call began, its arguments taken off.
#[derive(Debug, Copy, Clone, PartialEq, Eq, Structural)]
pub struct Frame {
    pub func: usize,
    pub module: usize,
    pub code: usize,
    pub labels_base: usize,
    pub locals_base: usize,
    pub stack_base: usize,
}

/// What the machine has asked of the embedder and waits for.
#[derive(Debug, Copy, Clone, PartialEq, Eq, Structural)]
pub enum Request {
    /// A call of the host function at this address; its arguments lie on
    /// top of the operand stack.
    Host(FuncAddr),
    /// An operation in floating point; its operands lie on top of the
    /// operand stack.
    Float(FloatOp),
}

/// Where the machine stands.
#[derive(Debug, Copy, Clone, PartialEq, Eq, Structural)]
pub enum Status {
    /// There is a frame, and the next instruction can be run.
    Running,
    /// No frame is left: every call has returned.
    Done,
    /// A trap ended every call.
    Trapped(Error),
    /// The machine waits for the result of a host function.
    Host(FuncAddr),
    /// The machine waits for the result of a floating-point operation.
    Float(FloatOp),
}

/// The machine as a value: the operand stack, the locals of all frames, the
/// labels of all frames, the frames, the pending request and the ceiling on
/// the number of frames.
pub struct MachineView {
    pub stack: Seq<Val>,
    pub locals: Seq<Val>,
    pub labels: Seq<Label>,
    pub frames: Seq<Frame>,
    pub pending: Option<Request>,
    pub max_depth: usize,
}

impl MachineView {
    /// The machine after a trap: nothing is left of any call.
    pub open spec fn reset(self) -> MachineView {
        MachineView {
            stack: Seq::empty(),
            locals: Seq::empty(),
            labels: Seq::empty(),
            frames: Seq::empty(),
            pending: None,
            max_depth: self.max_depth,
        }
    }

    /// Where the machine stands when no trap has occurred.
    pub open spec fn status(self) -> Status {
        match self.pending {
            Some(Request::Host(a)) => Status::Host(a),
            Some(Request::Float(op)) => Status::Float(op),
            None => if self.frames.len() == 0 {
                Status::Done
            } else {
                Status::Running
            },
        }
    }
}

/// The numbers of parameters and of results of a block type, in a module
/// instance with the function types `types`.
pub open spec fn spec_block_arity(bt: BlockType, types: Seq<FuncType>) -> Result<(nat, nat), Error> {
    match bt {
        BlockType::Empty => Ok((0, 0)),
        BlockType::Inline(_) => Ok((0, 1)),
        BlockType::Type(idx) => if idx.0 < types.len() {
            Ok((types[idx.0 as int].from@.len(), types[idx.0 as int].to@.len()))
        } else {
            Err(Error::SegFault)
        },
    }
}

pub fn block_arity(bt: BlockType, types: &Vec<FuncType>) -> (r: Result<(usize, usize), Error>)
    ensures
        match spec_block_arity(bt, types@) {
            Ok((p, q)) => r matches Ok((a, b)) && a == p && b == q,
            Err(e) => r == Err::<(usize, usize), Error>(e),
        },
{
    match bt {
        BlockType::Empty => Ok((0, 0)),
        BlockType::Inline(_) => Ok((0, 1)),
        BlockType::Type(idx) => if (idx.0 as usize) < types.len() {
            let t = &types[idx.0 as usize];
            Ok((t.from.types.len(), t.to.types.len()))
        } else {
            Err(Error::SegFault)
        },
    }
}

/// The instruction sequence that a block-like instruction carries: the
/// second one of a conditional if `alt`.
pub open spec fn spec_child(inst: Inst, alt: bool) -> Option<Seq<Inst>> {
    match inst {
        Inst::Block(_, e) => Some(e.instructions@),
        Inst::Loop(_, e) => Some(e.instructions@),
        Inst::IfElse(_, a, b) => Some(if alt { b.instructions@ } else { a.instructions@ }),
        _ => None,
    }
}

/// The instruction sequence in which the innermost of the labels `ls` of a
/// frame runs: the function's body for the first label, and for each
/// further label the sequence carried by the block at `at` in the sequence
/// of the label below.
pub open spec fn spec_code(body: Seq<Inst>, ls: Seq<Label>) -> Option<Seq<Inst>>
    decreases ls.len(),
{
    if ls.len() <= 1 {
        Some(body)
    } else {
        match spec_code(body, ls.drop_last()) {
            None => None,
            Some(parent) => if ls.last().at < parent.len() {
                spec_child(parent[ls.last().at as int], ls.last().alt)
            } else {
                None
            },
        }
    }
}

/// The next instruction of a frame with the labels `ls`, running function
/// `code` of the module instance: `None` at the end of the innermost
/// label's sequence.
pub open spec fn spec_fetch(mi: ModuleInst, code: usize, ls: Seq<Label>) -> Result<Option<Inst>, Error> {
    if code >= mi.funcs@.len() || ls.len() == 0 {
        Err(Error::SegFault)
    } else {
        match spec_code(mi.funcs@[code as int].body@, ls) {
            None => Err(Error::SegFault),
            Some(seq) => if ls.last().pc < seq.len() {
                Ok(Some(seq[ls.last().pc as int]))
            } else {
                Ok(None)
            },
        }
    }
}

/// Finds the next instruction of the innermost frame, whose labels begin at
/// `base`.
pub fn fetch<'a>(mi: &'a ModuleInst, code: usize, labels: &Vec<Label>, base: usize) -> (r: Result<
    Option<&'a Inst>,
    Error,
>)
    ensures
        base >= labels@.len() ==> r == Err::<Option<&Inst>, Error>(Error::SegFault),
        base < labels@.len() ==> match spec_fetch(*mi, code, labels@.skip(base as int)) {
            Err(e) => r == Err::<Option<&Inst>, Error>(e),
            Ok(None) => r == Ok::<Option<&Inst>, Error>(None),
            Ok(Some(inst)) => r matches Ok(Some(i)) && *i == inst && labels@.last().pc
                < usize::MAX,
        },
{
    if base >= labels.len() || code >= mi.funcs.len() {
        return Err(Error::SegFault);
    }
    let ghost ls = labels@.skip(base as int);
    let n: usize = labels.len() - base;
    let mut cur: &Vec<Inst> = &mi.funcs[code].body;
    let mut k: usize = 1;
    assert(ls.take(1).len() == 1);
    while k < n
        invariant
            1 <= k <= n,
            n == ls.len(),
            base + n == labels@.len() <= usize::MAX,
            ls == labels@.skip(base as int),
            spec_code(mi.funcs@[code as int].body@, ls.take(k as int)) == Some(cur@),
        decreases n - k,
    {
        let l = labels[base + k];
        proof {
            assert(ls.take(k + 1).drop_last() =~= ls.take(k as int));
            assert(ls.take(k + 1).last() == l);
        }
        if l.at >= cur.len() {
            proof {
                lemma_code_none(mi.funcs@[code as int].body@, ls, k + 1);
            }
            return Err(Error::SegFault);
        }
        match &cur[l.at] {
            Inst::Block(_, e) => {
                cur = &e.instructions;
            },
            Inst::Loop(_, e) => {
                cur = &e.instructions;
            },
            Inst::IfElse(_, a, b) => {
                if l.alt {
                    cur = &b.instructions;
                } else {
                    cur = &a.instructions;
                }
            },
            _ => {
                proof {
                    lemma_code_none(mi.funcs@[code as int].body@, ls, k + 1);
                }
                return Err(Error::SegFault);
            },
        }
        k = k + 1;
    }
    proof {
        assert(ls.take(n as int) =~= ls);
    }
    let pc: usize = labels[base + n - 1].pc;
    if pc < cur.len() {
        Ok(Some(&cur[pc]))
    } else {
        Ok(None)
    }
}

/// Where a prefix of the labels leads nowhere, so do all the labels.
pub proof fn lemma_code_none(body: Seq<Inst>, ls: Seq<Label>, k: int)
    requires
        1 <= k <= ls.len(),
        spec_code(body, ls.take(k)) is None,
    ensures
        spec_code(body, ls) is None,
    decreases ls.len() - k,
{
    if k < ls.len() {
        assert(ls.take(k + 1).drop_last() =~= ls.take(k));
        lemma_code_none(body, ls, k + 1);
    } else {
        assert(ls.take(k) =~= ls);
    }
}

/// The zeros that the declared locals of a function start with, in order;
/// `None` where a declaration is of a type that has no values.
pub open spec fn spec_zero_locals(decl: Seq<LocalDecl>) -> Option<Seq<Val>>
    decreases decl.len(),
{
    if decl.len() == 0 {
        Some(Seq::empty())
    } else {
        match (spec_zero_locals(decl.drop_last()), spec_default_value(decl.last().t)) {
            (Some(s), Some(v)) => Some(s + Seq::new(decl.last().n as nat, |i: int| v)),
            _ => None,
        }
    }
}

/// Appends to `locals` the zeros of the declarations. Where a declaration
/// has no zero, `locals` is left as it was.
pub fn push_zero_locals(locals: &mut Vec<Val>, decl: &Vec<LocalDecl>) -> (r: bool)
    ensures
        match spec_zero_locals(decl@) {
            Some(z) => r && final(locals)@ == old(locals)@ + z,
            None => !r && final(locals)@ == old(locals)@,
        },
{
    let start: usize = locals.len();
    let mut k: usize = 0;
    assert(decl@.take(0) =~= Seq::<LocalDecl>::empty());
    assert(locals@ =~= old(locals)@ + Seq::<Val>::empty());
    while k < decl.len()
        invariant
            k <= decl@.len(),
            start == old(locals)@.len(),
            spec_zero_locals(decl@.take(k as int)) matches Some(z) && locals@ == old(locals)@ + z,
        decreases decl@.len() - k,
    {
        let d = decl[k];
        proof {
            assert(decl@.take(k + 1).drop_last() =~= decl@.take(k as int));
            assert(decl@.take(k + 1).last() == d);
        }
        match default_value(d.t) {
            None => {
                proof {
                    lemma_zero_locals_none(decl@, k + 1);
                }
                locals.truncate(start);
                assert(locals@ =~= old(locals)@);
                return false;
            },
            Some(v) => {
                let ghost before = locals@;
                let mut i: u32 = 0;
                while i < d.n
                    invariant
                        i <= d.n,
                        locals@ == before + Seq::new(i as nat, |j: int| v),
                    decreases d.n - i,
                {
                    locals.push(v);
                    i = i + 1;
                    assert(locals@ =~= before + Seq::new(i as nat, |j: int| v));
                }
                assert(locals@ =~= old(locals)@ + (spec_zero_locals(decl@.take(k as int))->Some_0
                    + Seq::new(d.n as nat, |j: int| v)));
            },
        }
        k = k + 1;
    }
    proof {
        assert(decl@.take(k as int) =~= decl@);
    }
    true
}

/// Where a prefix of the declarations has no zeros, neither have all.
pub proof fn lemma_zero_locals_none(decl: Seq<LocalDecl>, k: int)
    requires
        0 <= k <= decl.len(),
        spec_zero_locals(decl.take(k)) is None,
    ensures
        spec_zero_locals(decl) is None,
    decreases decl.len() - k,
{
    if k < decl.len() {
        assert(decl.take(k + 1).drop_last() =~= decl.take(k));
        lemma_zero_locals_none(decl, k + 1);
    } else {
        assert(decl.take(k) =~= decl);
    }
}

/// The machine after a block-like instruction was entered: one more label.
/// The label of a loop takes the block's parameters on a branch, any other
/// label the block's results; its height is the height of the operand stack
/// below the block's parameters.
pub open spec fn spec_enter(m: MachineView, params: nat, results: nat, is_loop: bool, alt: bool) -> Result<
    MachineView,
    Error,
> {
    if m.labels.len() == 0 || m.labels.last().pc == 0 {
        Err(Error::SegFault)
    } else if m.stack.len() < params {
        Err(Error::StackEmpty)
    } else {
        Ok(
            MachineView {
                labels: m.labels.push(
                    Label {
                        arity: (if is_loop { params } else { results }) as usize,
                        height: (m.stack.len() - params) as usize,
                        pc: 0,
                        at: (m.labels.last().pc - 1) as usize,
                        alt,
                        is_loop,
                    },
                ),
                ..m
            },
        )
    }
}

/// The machine after the innermost call returned: the results, as many as
/// the function's type has and of its kinds, are moved from the top of the
/// operand stack down to the height at which the call began, and the call's
/// frame, labels and locals are gone.
pub open spec fn spec_return(funcs: Seq<FuncInst>, m: MachineView) -> Result<MachineView, Error> {
    if m.frames.len() == 0 {
        Err(Error::SegFault)
    } else {
        let f = m.frames.last();
        if f.func >= funcs.len() || f.labels_base > m.labels.len() || f.locals_base
            > m.locals.len() {
            Err(Error::SegFault)
        } else {
            let results = funcs[f.func as int].spec_typ().to@;
            let n = results.len();
            if m.stack.len() < n || m.stack.len() - n < f.stack_base {
                Err(Error::StackEmpty)
            } else if spec_kinds(m.stack.skip(m.stack.len() - n)) != results {
                Err(Error::WrongValType)
            } else {
                Ok(
                    MachineView {
                        stack: m.stack.take(f.stack_base as int) + m.stack.skip(m.stack.len() - n),
                        locals: m.locals.take(f.locals_base as int),
                        labels: m.labels.take(f.labels_base as int),
                        frames: m.frames.drop_last(),
                        ..m
                    },
                )
            }
        }
    }
}

/// The machine after a branch to the label that lies `n` labels outward
/// from the innermost. As many values as the label's arity are kept from
/// the top of the operand stack and put on its first `height` values; the
/// labels inside the target are gone. A loop's label stays and starts its
/// sequence again; another label goes too. A branch to the outermost label
/// of the function is a return.
pub open spec fn spec_branch(funcs: Seq<FuncInst>, m: MachineView, n: usize) -> Result<
    MachineView,
    Error,
> {
    if m.frames.len() == 0 || m.frames.last().labels_base >= m.labels.len() {
        Err(Error::SegFault)
    } else if n >= m.labels.len() - m.frames.last().labels_base {
        Err(Error::LabelNotFound)
    } else {
        let t = m.labels.len() - 1 - n;
        let target = m.labels[t];
        if t == m.frames.last().labels_base {
            spec_return(funcs, m)
        } else if m.stack.len() < target.arity || m.stack.len() - target.arity < target.height {
            Err(Error::StackEmpty)
        } else {
            Ok(
                MachineView {
                    stack: m.stack.take(target.height as int) + m.stack.skip(
                        m.stack.len() - target.arity,
                    ),
                    labels: if target.is_loop {
                        m.labels.take(t).push(Label { pc: 0, ..target })
                    } else {
                        m.labels.take(t)
                    },
                    ..m
                },
            )
        }
    }
}

/// The machine after the innermost label's sequence came to its end: the
/// label is gone, and with the outermost label of the function the call
/// returns.
pub open spec fn spec_end(funcs: Seq<FuncInst>, m: MachineView) -> Result<MachineView, Error> {
    if m.frames.len() == 0 || m.frames.last().labels_base >= m.labels.len() {
        Err(Error::SegFault)
    } else if m.labels.len() - 1 == m.frames.last().labels_base {
        spec_return(funcs, m)
    } else {
        Ok(MachineView { labels: m.labels.drop_last(), ..m })
    }
}

/// Whether the top of the operand stack holds arguments for the parameter
/// types `params`: `Ok` with their number, or the error.
pub open spec fn spec_args(stack: Seq<Val>, params: Seq<ValType>) -> Result<nat, Error> {
    if stack.len() < params.len() {
        Err(Error::StackEmpty)
    } else if spec_kinds(stack.skip(stack.len() - params.len())) != params {
        Err(Error::WrongValType)
    } else {
        Ok(params.len())
    }
}

/// The machine after the function at `addr` was called. A function of a
/// module gets a frame: its arguments are taken off the operand stack and
/// become its first locals, in order, followed by the zeros of its declared
/// locals, and its outermost label has the arity of its results. For a
/// function of the host the machine asks the embedder, the arguments left
/// on the stack.
pub open spec fn spec_begin_call(s: StoreView, m: MachineView, addr: usize) -> Result<MachineView, Error> {
    if addr >= s.funcs.len() {
        Err(Error::FunctionNotFound)
    } else {
        match s.funcs[addr as int] {
            FuncInst::Local { typ, module, code } => if m.frames.len() >= m.max_depth {
                Err(Error::CallStackExhausted)
            } else if module >= s.modules.len() || code >= s.modules[module as int].funcs@.len() {
                Err(Error::SegFault)
            } else {
                match spec_args(m.stack, typ.from@) {
                    Err(e) => Err(e),
                    Ok(n) => match spec_zero_locals(
                        s.modules[module as int].funcs@[code as int].locals@,
                    ) {
                        None => Err(Error::WrongValType),
                        Some(zeros) => Ok(
                            MachineView {
                                stack: m.stack.take(m.stack.len() - n),
                                locals: m.locals + m.stack.skip(m.stack.len() - n) + zeros,
                                labels: m.labels.push(
                                    Label {
                                        arity: typ.to@.len() as usize,
                                        height: (m.stack.len() - n) as usize,
                                        pc: 0,
                                        at: 0,
                                        alt: false,
                                        is_loop: false,
                                    },
                                ),
                                frames: m.frames.push(
                                    Frame {
                                        func: addr,
                                        module,
                                        code,
                                        labels_base: m.labels.len() as usize,
                                        locals_base: m.locals.len() as usize,
                                        stack_base: (m.stack.len() - n) as usize,
                                    },
                                ),
                                ..m
                            },
                        ),
                    },
                }
            },
            FuncInst::External { typ, func } => match spec_args(m.stack, typ.from@) {
                Err(e) => Err(e),
                Ok(_) => Ok(MachineView { pending: Some(Request::Host(FuncAddr(addr))), ..m }),
            },
        }
    }
}

/// The addresses of a module instance's tables, as numbers.
pub open spec fn spec_table_addrs(addrs: Seq<TableAddr>) -> Seq<usize> {
    Seq::new(addrs.len(), |i: int| addrs[i].0)
}

/// The machine after an indirect call through table `table` of the module
/// instance `mi`. The index is taken off the operand stack; it must lie
/// within the table, the slot must hold a function, and the function's type
/// must be the type `typ` of the instance. Then the function is called.
pub open spec fn spec_call_indirect(
    s: StoreView,
    m: MachineView,
    mi: ModuleInst,
    typ: TypeIdx,
    table: TableIdx,
) -> Result<MachineView, Error> {
    match spec_pop_i32(m.stack) {
        Err(e) => Err(e),
        Ok((rest, i)) => match spec_resolve(spec_table_addrs(mi.table_addrs@), table.0, s.tables.len()) {
            Err(e) => Err(e),
            Ok(a) => {
                let elem = s.tables[a as int].elem@;
                if spec_u32_of(i) >= elem.len() {
                    Err(Error::TableOutOfBounds)
                } else {
                    match elem[spec_u32_of(i)] {
                        Ref::Null(_) => Err(Error::UninitializedElement),
                        Ref::Extern(_) => Err(Error::IndirectCallTypeMismatch),
                        Ref::Func(fa) => if typ.0 >= mi.types@.len() {
                            Err(Error::SegFault)
                        } else if fa >= s.funcs.len() {
                            Err(Error::FunctionNotFound)
                        } else if s.funcs[fa as int].spec_typ()@ != mi.types@[typ.0 as int]@ {
                            Err(Error::IndirectCallTypeMismatch)
                        } else {
                            spec_begin_call(s, MachineView { stack: rest, ..m }, fa)
                        },
                    }
                }
            },
        },
    }
}

/// The machine after a floating-point instruction: with its operands on top
/// of the operand stack, it asks the embedder for the result.
pub open spec fn spec_float(m: MachineView, op: FloatOp) -> Result<MachineView, Error> {
    match spec_args(m.stack, Seq::new(op.spec_operands(), |i: int| op.spec_operand_type())) {
        Err(e) => Err(e),
        Ok(_) => Ok(MachineView { pending: Some(Request::Float(op)), ..m }),
    }
}

/// What a branching instruction decides, and the operand stack after it
/// took its operand: to go on, to branch to a label, to return, or to trap.
/// `br_if` branches if its operand is not zero. `br_table` branches to the
/// label that its operand, read as unsigned, selects from the table, and to
/// the default label if the operand is not below the table's length.
pub open spec fn spec_branching(inst: Inst, st: Seq<Val>) -> (Seq<Val>, Result<(), Exception>) {
    match inst {
        Inst::Unreachable => (st, Err(Exception::Runtime(Error::Unreachable))),
        Inst::Return => (st, Err(Exception::Return)),
        Inst::Break(l) => (st, Err(Exception::Break(l.0 as usize))),
        Inst::BreakIf(l) => match spec_pop_i32(st) {
            Err(e) => (st, Err(Exception::Runtime(e))),
            Ok((rest, c)) => if c != 0 {
                (rest, Err(Exception::Break(l.0 as usize)))
            } else {
                (rest, Ok(()))
            },
        },
        Inst::BreakTable(ls, d) => match spec_pop_i32(st) {
            Err(e) => (st, Err(Exception::Runtime(e))),
            Ok((rest, i)) => if spec_u32_of(i) < ls@.len() {
                (rest, Err(Exception::Break(ls@[spec_u32_of(i)].0 as usize)))
            } else {
                (rest, Err(Exception::Break(d.0 as usize)))
            },
        },
        _ => (st, Ok(())),
    }
}

/// Decides a branching instruction.
pub(crate) fn exec_branching(inst: &Inst, stack: &mut Stack) -> (r: Result<(), Exception>)
    ensures
        r == spec_branching(*inst, old(stack)@).1,
        !(r matches Err(Exception::Runtime(_))) ==> final(stack)@ == spec_branching(
            *inst,
            old(stack)@,
        ).0,
{
    match inst {
        Inst::Unreachable => Err(Exception::Runtime(Error::Unreachable)),
        Inst::Return => Err(Exception::Return),
        Inst::Break(l) => Err(Exception::Break(l.0 as usize)),
        Inst::BreakIf(l) => {
            match stack.pop_i32() {
                Err(e) => Err(Exception::from(e)),
                Ok(c) => if c != 0 {
                    Err(Exception::Break(l.0 as usize))
                } else {
                    Ok(())
                },
            }
        },
        Inst::BreakTable(ls, d) => {
            match stack.pop_i32() {
                Err(e) => Err(Exception::from(e)),
                Ok(i) => {
                    let u: u32 = u32_of(i);
                    if (u as usize) < ls.len() {
                        Err(Exception::Break(ls[u as usize].0 as usize))
                    } else {
                        Err(Exception::Break(d.0 as usize))
                    }
                },
            }
        },
        _ => Ok(()),
    }
}

/// The machine: the operand stack, the locals and labels of the calls that
/// have not returned, their frames, what is asked of the embedder, and the
/// ceiling on the number of frames.
#[derive(Debug)]
pub struct Machine {
    pub stack: Stack,
    pub locals: Locals,
    pub labels: Vec<Label>,
    pub frames: Vec<Frame>,
    pub pending: Option<Request>,
    pub max_depth: usize,
}

impl View for Machine {
    type V = MachineView;

    open spec fn view(&self) -> MachineView {
        MachineView {
            stack: self.stack@,
            locals: self.locals@,
            labels: self.labels@,
            frames: self.frames@,
            pending: self.pending,
            max_depth: self.max_depth,
        }
    }
}

impl Machine {
    /// A machine at rest that runs at most `max_depth` nested calls.
    pub fn new(max_depth: usize) -> (m: Machine)
        ensures
            m@ == (MachineView {
                stack: Seq::empty(),
                locals: Seq::empty(),
                labels: Seq::empty(),
                frames: Seq::empty(),
                pending: None,
                max_depth,
            }),
    {
        Machine {
            stack: Stack::new(),
            locals: Locals::empty(),
            labels: Vec::new(),
            frames: Vec::new(),
            pending: None,
            max_depth,
        }
    }

    /// Where the machine stands.
    pub fn status(&self) -> (r: Status)
        ensures
            r == self@.status(),
    {
        match self.pending {
            Some(Request::Host(a)) => Status::Host(a),
            Some(Request::Float(op)) => Status::Float(op),
            None => if self.frames.len() == 0 {
                Status::Done
            } else {
                Status::Running
            },
        }
    }

    /// Ends every call.
    pub fn reset(&mut self)
        ensures
            final(self)@ == old(self)@.reset(),
    {
        self.stack.items.clear();
        self.locals.locals.clear();
        self.labels.clear();
        self.frames.clear();
        self.pending = None;
    }

    /// Opens a label for a block-like instruction that was just fetched.
    pub fn enter(&mut self, params: usize, results: usize, is_loop: bool, alt: bool) -> (r: Result<
        (),
        Error,
    >)
        ensures
            match spec_enter(old(self)@, params as nat, results as nat, is_loop, alt) {
                Ok(m) => r is Ok && final(self)@ == m,
                Err(e) => r == Err::<(), Error>(e) && final(self)@ == old(self)@,
            },
    {
        let n: usize = self.labels.len();
        if n == 0 || self.labels[n - 1].pc == 0 {
            return Err(Error::SegFault);
        }
        let len: usize = self.stack.len();
        if len < params {
            return Err(Error::StackEmpty);
        }
        let label = Label {
            arity: if is_loop { params } else { results },
            height: len - params,
            pc: 0,
            at: self.labels[n - 1].pc - 1,
            alt,
            is_loop,
        };
        self.labels.push(label);
        Ok(())
    }

    /// Keeps the top `arity` values of the operand stack and puts them on
    /// its first `height` values.
    fn unwind(&mut self, height: usize, arity: usize)
        requires
            arity <= old(self)@.stack.len(),
            height <= old(self)@.stack.len() - arity,
        ensures
            final(self)@ == (MachineView {
                stack: old(self)@.stack.take(height as int) + old(self)@.stack.skip(
                    old(self)@.stack.len() - arity,
                ),
                ..old(self)@
            }),
    {
        let len: usize = self.stack.items.len();
        let mut top = self.stack.items.split_off(len - arity);
        self.stack.items.truncate(height);
        self.stack.items.append(&mut top);
        assert(self.stack@ =~= old(self)@.stack.take(height as int) + old(self)@.stack.skip(
            old(self)@.stack.len() - arity,
        ));
    }

    /// Returns from the innermost call. After a normal return the operand
    /// stack stands as many values above the height at which the call began
    /// as the function has results, and these values are of the kinds of
    /// the results.
    pub fn do_return(&mut self, funcs: &Vec<FuncInst>) -> (r: Result<(), Error>)
        ensures
            match spec_return(funcs@, old(self)@) {
                Ok(m) => r is Ok && final(self)@ == m,
                Err(e) => r == Err::<(), Error>(e) && final(self)@ == old(self)@,
            },
            r is Ok ==> {
                let f = old(self)@.frames.last();
                let results = funcs@[f.func as int].spec_typ().to@;
                &&& final(self)@.stack.len() == f.stack_base + results.len()
                &&& spec_kinds(final(self)@.stack.skip(f.stack_base as int)) == results
                &&& final(self)@.stack.take(f.stack_base as int) == old(self)@.stack.take(
                    f.stack_base as int,
                )
            },
    {
        let nf: usize = self.frames.len();
        if nf == 0 {
            return Err(Error::SegFault);
        }
        let f = self.frames[nf - 1];
        if f.func >= funcs.len() || f.labels_base > self.labels.len() || f.locals_base
            > self.locals.locals.len() {
            return Err(Error::SegFault);
        }
        let results = &funcs[f.func].typ().to.types;
        let n: usize = results.len();
        let len: usize = self.stack.len();
        if len < n || len - n < f.stack_base {
            return Err(Error::StackEmpty);
        }
        if !kinds_match(&self.stack.items, len - n, results) {
            return Err(Error::WrongValType);
        }
        self.unwind(f.stack_base, n);
        self.labels.truncate(f.labels_base);
        self.locals.locals.truncate(f.locals_base);
        self.frames.pop();
        proof {
            let top = old(self)@.stack.skip(len - n);
            assert(self@.stack.skip(f.stack_base as int) =~= top);
            assert(self@.stack.take(f.stack_base as int) =~= old(self)@.stack.take(
                f.stack_base as int,
            ));
        }
        Ok(())
    }

    /// Branches to the label that lies `n` labels outward from the innermost
    /// label of the innermost call. Exactly as many values as the target's
    /// arity are kept across the branch.
    pub fn branch(&mut self, funcs: &Vec<FuncInst>, n: usize) -> (r: Result<(), Error>)
        ensures
            match spec_branch(funcs@, old(self)@, n) {
                Ok(m) => r is Ok && final(self)@ == m,
                Err(e) => r == Err::<(), Error>(e) && final(self)@ == old(self)@,
            },
            r is Ok && n < old(self)@.labels.len() - 1 - old(self)@.frames.last().labels_base ==> {
                let target = old(self)@.labels[old(self)@.labels.len() - 1 - n];
                &&& final(self)@.stack.len() == target.height + target.arity
                &&& final(self)@.stack.skip(target.height as int) == old(self)@.stack.skip(
                    old(self)@.stack.len() - target.arity,
                )
                &&& final(self)@.stack.take(target.height as int) == old(self)@.stack.take(
                    target.height as int,
                )
            },
    {
        let nf: usize = self.frames.len();
        if nf == 0 {
            return Err(Error::SegFault);
        }
        let base: usize = self.frames[nf - 1].labels_base;
        let nl: usize = self.labels.len();
        if base >= nl {
            return Err(Error::SegFault);
        }
        if n >= nl - base {
            return Err(Error::LabelNotFound);
        }
        let t: usize = nl - 1 - n;
        if t == base {
            return self.do_return(funcs);
        }
        let target = self.labels[t];
        let len: usize = self.stack.len();
        if len < target.arity || len - target.arity < target.height {
            return Err(Error::StackEmpty);
        }
        self.unwind(target.height, target.arity);
        self.labels.truncate(t);
        if target.is_loop {
            self.labels.push(Label { pc: 0, ..target });
        }
        proof {
            assert(self@.stack.skip(target.height as int) =~= old(self)@.stack.skip(
                old(self)@.stack.len() - target.arity,
            ));
            assert(self@.stack.take(target.height as int) =~= old(self)@.stack.take(
                target.height as int,
            ));
        }
        Ok(())
    }

    /// Leaves the innermost label at the end of its sequence.
    pub fn end(&mut self, funcs: &Vec<FuncInst>) -> (r: Result<(), Error>)
        ensures
            match spec_end(funcs@, old(self)@) {
                Ok(m) => r is Ok && final(self)@ == m,
                Err(e) => r == Err::<(), Error>(e) && final(self)@ == old(self)@,
            },
    {
        let nf: usize = self.frames.len();
        if nf == 0 {
            return Err(Error::SegFault);
        }
        let base: usize = self.frames[nf - 1].labels_base;
        let nl: usize = self.labels.len();
        if base >= nl {
            return Err(Error::SegFault);
        }
        if nl - 1 == base {
            return self.do_return(funcs);
        }
        self.labels.pop();
        Ok(())
    }

    /// Whether the top of the operand stack holds arguments of the kinds
    /// `params`.
    fn check_args(&self, params: &Vec<ValType>) -> (r: Result<usize, Error>)
        ensures
            match spec_args(self@.stack, params@) {
                Ok(n) => r == Ok::<usize, Error>(n as usize) && n == params@.len() && n
                    <= self@.stack.len(),
                Err(e) => r == Err::<usize, Error>(e),
            },
    {
        let len: usize = self.stack.len();
        let n: usize = params.len();
        if len < n {
            return Err(Error::StackEmpty);
        }
        if !kinds_match(&self.stack.items, len - n, params) {
            return Err(Error::WrongValType);
        }
        Ok(n)
    }

    /// Begins a call of the function at `addr`: takes its arguments off the
    /// operand stack and gives it a frame, or asks the embedder for a
    /// function of the host. Where the call cannot begin the machine is left
    /// as it was.
    pub fn begin_call(
        &mut self,
        funcs: &Vec<FuncInst>,
        modules: &Vec<ModuleInst>,
        addr: usize,
    ) -> (r: Result<(), Error>)
        ensures
            forall|s: StoreView|
                s.funcs == funcs@ && s.modules == modules@ ==> match #[trigger] spec_begin_call(
                    s,
                    old(self)@,
                    addr,
                ) {
                    Ok(m) => r is Ok && final(self)@ == m,
                    Err(e) => r == Err::<(), Error>(e),
                },
            r is Err ==> final(self)@ == old(self)@,
            final(self).max_depth == old(self).max_depth,
    {
        if addr >= funcs.len() {
            return Err(Error::FunctionNotFound);
        }
        match &funcs[addr] {
            FuncInst::Local { typ, module, code } => {
                if self.frames.len() >= self.max_depth {
                    return Err(Error::CallStackExhausted);
                }
                if *module >= modules.len() || *code >= modules[*module].funcs.len() {
                    return Err(Error::SegFault);
                }
                let n: usize = self.check_args(&typ.from.types)?;
                let len: usize = self.stack.len();
                let frame = Frame {
                    func: addr,
                    module: *module,
                    code: *code,
                    labels_base: self.labels.len(),
                    locals_base: self.locals.locals.len(),
                    stack_base: len - n,
                };
                let label = Label {
                    arity: typ.to.types.len(),
                    height: len - n,
                    pc: 0,
                    at: 0,
                    alt: false,
                    is_loop: false,
                };
                let base: usize = self.locals.locals.len();
                let mut args = self.stack.items.split_off(len - n);
                self.locals.locals.append(&mut args);
                if !push_zero_locals(&mut self.locals.locals, &modules[*module].funcs[*code].locals) {
                    let mut back = self.locals.locals.split_off(base);
                    self.stack.items.append(&mut back);
                    proof {
                        assert(self.stack@ =~= old(self).stack@);
                        assert(self.locals@ =~= old(self).locals@);
                    }
                    return Err(Error::WrongValType);
                }
                self.labels.push(label);
                self.frames.push(frame);
                Ok(())
            },
            FuncInst::External { typ, func } => {
                let _ = self.check_args(&typ.from.types)?;
                self.pending = Some(Request::Host(FuncAddr(addr)));
                Ok(())
            },
        }
    }

    /// Performs `call_indirect`. Where the call cannot begin the machine is
    /// left as it was.
    pub fn call_indirect(
        &mut self,
        funcs: &Vec<FuncInst>,
        modules: &Vec<ModuleInst>,
        tables: &Vec<TableInstInner>,
        mi: &ModuleInst,
        typ: TypeIdx,
        table: TableIdx,
    ) -> (r: Result<(), Error>)
        ensures
            forall|s: StoreView|
                s.funcs == funcs@ && s.modules == modules@ && s.tables == tables@
                    ==> match #[trigger] spec_call_indirect(s, old(self)@, *mi, typ, table) {
                    Ok(m) => r is Ok && final(self)@ == m,
                    Err(e) => r == Err::<(), Error>(e),
                },
            r is Err ==> final(self)@ == old(self)@,
            final(self).max_depth == old(self).max_depth,
    {
        let v = self.stack.peek()?;
        let i = match v {
            Val::I32(i) => i,
            _ => {
                return Err(Error::WrongValType);
            },
        };
        if table.0 as usize >= mi.table_addrs.len() {
            return Err(Error::SegFault);
        }
        let a: usize = mi.table_addrs[table.0 as usize].0;
        if a >= tables.len() {
            return Err(Error::SegFault);
        }
        let elem = &tables[a].elem;
        let u: u32 = u32_of(i);
        if u as usize >= elem.len() {
            return Err(Error::TableOutOfBounds);
        }
        match elem[u as usize] {
            Ref::Null(_) => Err(Error::UninitializedElement),
            Ref::Extern(_) => Err(Error::IndirectCallTypeMismatch),
            Ref::Func(fa) => {
                if typ.0 as usize >= mi.types.len() {
                    return Err(Error::SegFault);
                }
                if fa >= funcs.len() {
                    return Err(Error::FunctionNotFound);
                }
                if !funcs[fa].typ().same(&mi.types[typ.0 as usize]) {
                    return Err(Error::IndirectCallTypeMismatch);
                }
                let _ = self.stack.pop();
                match self.begin_call(funcs, modules, fa) {
                    Ok(()) => Ok(()),
                    Err(e) => {
                        self.stack.push(v);
                        assert(self.stack@ =~= old(self).stack@);
                        Err(e)
                    },
                }
            },
        }
    }

    /// Asks the embedder for the result of a floating-point operation.
    pub fn ask_float(&mut self, op: FloatOp) -> (r: Result<(), Error>)
        ensures
            match spec_float(old(self)@, op) {
                Ok(m) => r is Ok && final(self)@ == m,
                Err(e) => r == Err::<(), Error>(e) && final(self)@ == old(self)@,
            },
    {
        let n: usize = op.operands();
        let t = op.operand_type();
        let len: usize = self.stack.len();
        if len < n {
            return Err(Error::StackEmpty);
        }
        let ghost want = Seq::new(op.spec_operands(), |i: int| op.spec_operand_type());
        let ghost top = self@.stack.skip(len - n);
        let mut i: usize = 0;
        while i < n
            invariant
                i <= n,
                n <= len,
                len == self@.stack.len(),
                self@ == old(self)@,
                t == op.spec_operand_type(),
                n == op.spec_operands(),
                want == Seq::new(op.spec_operands(), |i: int| op.spec_operand_type()),
                top == self@.stack.skip(len - n),
                forall|j: int| 0 <= j < i ==> top[j].spec_kind() == t,
            decreases n - i,
        {
            if self.stack.items[len - n + i].kind() != t {
                assert(spec_kinds(top)[i as int] != want[i as int]);
                return Err(Error::WrongValType);
            }
            i = i + 1;
        }
        assert(spec_kinds(top) =~= want);
        self.pending = Some(Request::Float(op));
        Ok(())
    }
}

/// A result about the machine alone, beside the store that it leaves as it
/// was.
pub open spec fn spec_keep(s: StoreView, r: Result<MachineView, Error>) -> Result<
    (StoreView, MachineView),
    Error,
> {
    match r {
        Ok(m) => Ok((s, m)),
        Err(e) => Err(e),
    }
}

/// The store and the machine after the instruction `inst` of the frame `f`
/// was run, the frame's position already moved past it; or the trap.
pub open spec fn spec_exec(s: StoreView, m: MachineView, f: Frame, inst: Inst) -> Result<
    (StoreView, MachineView),
    Error,
> {
    let mi = s.modules[f.module as int];
    match inst {
        Inst::Block(bt, _) => match spec_block_arity(bt, mi.types@) {
            Err(e) => Err(e),
            Ok((p, q)) => spec_keep(s, spec_enter(m, p, q, false, false)),
        },
        Inst::Loop(bt, _) => match spec_block_arity(bt, mi.types@) {
            Err(e) => Err(e),
            Ok((p, q)) => spec_keep(s, spec_enter(m, p, q, true, false)),
        },
        Inst::IfElse(bt, _, _) => match spec_pop_i32(m.stack) {
            Err(e) => Err(e),
            Ok((rest, c)) => match spec_block_arity(bt, mi.types@) {
                Err(e) => Err(e),
                Ok((p, q)) => spec_keep(
                    s,
                    spec_enter(MachineView { stack: rest, ..m }, p, q, false, c == 0),
                ),
            },
        },
        Inst::Unreachable | Inst::Return | Inst::Break(_) | Inst::BreakIf(_) | Inst::BreakTable(
            _,
            _,
        ) => match spec_branching(inst, m.stack) {
            (st, Ok(())) => Ok((s, MachineView { stack: st, ..m })),
            (st, Err(Exception::Break(n))) => spec_keep(
                s,
                spec_branch(s.funcs, MachineView { stack: st, ..m }, n),
            ),
            (st, Err(Exception::Return)) => spec_keep(
                s,
                spec_return(s.funcs, MachineView { stack: st, ..m }),
            ),
            (_, Err(Exception::Runtime(e))) => Err(e),
        },
        Inst::Call(fi) => if fi.0 < mi.func_addrs@.len() {
            spec_keep(s, spec_begin_call(s, m, mi.func_addrs@[fi.0 as int].0))
        } else {
            Err(Error::FunctionNotFound)
        },
        Inst::CallIndirect(t, tab) => spec_keep(s, spec_call_indirect(s, m, mi, t, tab)),
        Inst::LocalGet(_) | Inst::LocalSet(_) | Inst::LocalTee(_) => match spec_local(
            inst,
            m.stack,
            m.locals,
            f.locals_base,
        ) {
            Err(e) => Err(e),
            Ok((st, ls)) => Ok((s, MachineView { stack: st, locals: ls, ..m })),
        },
        Inst::GlobalGet(_) | Inst::GlobalSet(_) => match spec_global(
            inst,
            m.stack,
            s.globals,
            mi.global_addrs@,
        ) {
            Err(e) => Err(e),
            Ok((st, gs)) => Ok((StoreView { globals: gs, ..s }, MachineView { stack: st, ..m })),
        },
        Inst::Load(_, _) | Inst::Store(_, _) | Inst::MemorySize | Inst::MemoryGrow => match spec_memory(
            inst,
            m.stack,
            s.mems,
            mi.mem_addrs@,
        ) {
            Err(e) => Err(e),
            Ok((st, ms)) => Ok((StoreView { mems: ms, ..s }, MachineView { stack: st, ..m })),
        },
        Inst::Float(op) => spec_keep(s, spec_float(m, op)),
        _ => match spec_pure(inst, m.stack) {
            Err(e) => Err(e),
            Ok(st) => Ok((s, MachineView { stack: st, ..m })),
        },
    }
}

/// The machine with the position of its innermost label moved on by one.
pub open spec fn spec_advance(m: MachineView) -> MachineView {
    MachineView {
        labels: m.labels.update(
            m.labels.len() - 1,
            Label { pc: (m.labels.last().pc + 1) as usize, ..m.labels.last() },
        ),
        ..m
    }
}

/// The store and the machine after one step of a machine that has a frame
/// and waits for nothing: the next instruction of the innermost frame is
/// run, or, at the end of a sequence, its label is left.
pub open spec fn spec_step_inner(s: StoreView, m: MachineView) -> Result<
    (StoreView, MachineView),
    Error,
> {
    let f = m.frames.last();
    if f.module >= s.modules.len() || f.labels_base >= m.labels.len() {
        Err(Error::SegFault)
    } else {
        match spec_fetch(s.modules[f.module as int], f.code, m.labels.skip(f.labels_base as int)) {
            Err(e) => Err(e),
            Ok(None) => spec_keep(s, spec_end(s.funcs, m)),
            Ok(Some(inst)) => spec_exec(s, spec_advance(m), f, inst),
        }
    }
}

/// One step of the machine. A machine that waits for the embedder, or has
/// no frame, stays as it is. A trap ends every call and leaves the store as
/// it was before the step.
pub open spec fn spec_step(s: StoreView, m: MachineView) -> (StoreView, MachineView, Status) {
    if m.pending is Some || m.frames.len() == 0 {
        (s, m, m.status())
    } else {
        match spec_step_inner(s, m) {
            Err(e) => (s, m.reset(), Status::Trapped(e)),
            Ok((s2, m2)) => (s2, m2, m2.status()),
        }
    }
}

/// At most `fuel` steps of the machine: it stops before that as soon as a
/// step leaves it in another state than running.
pub open spec fn spec_run(s: StoreView, m: MachineView, fuel: nat) -> (StoreView, MachineView, Status)
    decreases fuel,
{
    if fuel == 0 {
        (s, m, m.status())
    } else {
        let (s2, m2, status) = spec_step(s, m);
        if status == Status::Running {
            spec_run(s2, m2, (fuel - 1) as nat)
        } else {
            (s2, m2, status)
        }
    }
}

/// A step changes no function, module instance or table of the store.
pub proof fn lemma_step_keeps_code(s: StoreView, m: MachineView)
    ensures
        spec_step(s, m).0.funcs == s.funcs,
        spec_step(s, m).0.modules == s.modules,
        spec_step(s, m).0.tables == s.tables,
{
}

/// Running changes no function, module instance or table of the store:
/// only memories and globals are written.
pub proof fn lemma_run_keeps_code(s: StoreView, m: MachineView, fuel: nat)
    ensures
        spec_run(s, m, fuel).0.funcs == s.funcs,
        spec_run(s, m, fuel).0.modules == s.modules,
        spec_run(s, m, fuel).0.tables == s.tables,
    decreases fuel,
{
    if fuel > 0 {
        let (s2, m2, status) = spec_step(s, m);
        lemma_step_keeps_code(s, m);
        if status == Status::Running {
            lemma_run_keeps_code(s2, m2, (fuel - 1) as nat);
        }
    }
}

/// The host function that the machine waits for, and the arguments of the
/// call: the values on top of the operand stack, as many as the function
/// has parameters, the first parameter's deepest. There is none where the
/// machine does not wait for a host function.
pub open spec fn spec_host_call(funcs: Seq<FuncInst>, m: MachineView) -> Option<(HostFunc, Seq<Val>)> {
    match m.pending {
        Some(Request::Host(a)) => if a.0 < funcs.len() {
            match funcs[a.0 as int] {
                FuncInst::External { typ, func } => if typ.from@.len() <= m.stack.len() {
                    Some((func, m.stack.skip(m.stack.len() - typ.from@.len())))
                } else {
                    None
                },
                _ => None,
            }
        } else {
            None
        },
        _ => None,
    }
}

/// The machine after an entry from outside: a call of the function at
/// `addr` with the arguments on top of the operand stack. A machine that
/// waits for the embedder stays as it is.
pub open spec fn spec_call(s: StoreView, m: MachineView, addr: usize) -> (MachineView, Status) {
    if m.pending is Some {
        (m, m.status())
    } else {
        match spec_begin_call(s, m, addr) {
            Err(e) => (m.reset(), Status::Trapped(e)),
            Ok(m2) => (m2, m2.status()),
        }
    }
}

/// The machine after the embedder answered the pending request with
/// `results`: they take the place of the arguments or operands on the
/// operand stack. The answer must have the kinds of the host function's
/// results, or be one value of the kind that the floating-point operation
/// gives.
pub open spec fn spec_resume(funcs: Seq<FuncInst>, m: MachineView, results: Seq<Val>) -> Result<
    MachineView,
    Error,
> {
    match m.pending {
        None => Err(Error::UnexpectedAnswer),
        Some(Request::Host(a)) => if a.0 >= funcs.len() {
            Err(Error::SegFault)
        } else {
            match funcs[a.0 as int] {
                FuncInst::Local { .. } => Err(Error::SegFault),
                FuncInst::External { typ, .. } => if spec_kinds(results) != typ.to@ {
                    Err(Error::UnexpectedAnswer)
                } else if m.stack.len() < typ.from@.len() {
                    Err(Error::StackEmpty)
                } else {
                    Ok(
                        MachineView {
                            stack: m.stack.take(m.stack.len() - typ.from@.len()) + results,
                            pending: None,
                            ..m
                        },
                    )
                },
            }
        },
        Some(Request::Float(op)) => if spec_kinds(results) != seq![op.spec_result_type()] {
            Err(Error::UnexpectedAnswer)
        } else if m.stack.len() < op.spec_operands() {
            Err(Error::StackEmpty)
        } else {
            Ok(
                MachineView {
                    stack: m.stack.take(m.stack.len() - op.spec_operands()) + results,
                    pending: None,
                    ..m
                },
            )
        },
    }
}

/// The machine after the start function of the module instance at
/// `module` was entered, if the instance has one.
pub open spec fn spec_start(s: StoreView, m: MachineView, module: usize) -> (MachineView, Status) {
    if module >= s.modules.len() {
        (m, m.status())
    } else {
        match s.modules[module as int].start {
            None => (m, m.status()),
            Some(f) => if m.pending is Some {
                (m, m.status())
            } else if f.0 >= s.modules[module as int].func_addrs@.len() {
                (m.reset(), Status::Trapped(Error::FunctionNotFound))
            } else {
                spec_call(s, m, s.modules[module as int].func_addrs@[f.0 as int].0)
            },
        }
    }
}

impl Machine {
    /// Runs the instruction `inst` of the frame `f`.
    fn exec(
        &mut self,
        inst: &Inst,
        f: Frame,
        funcs: &Vec<FuncInst>,
        modules: &Vec<ModuleInst>,
        tables: &Vec<TableInstInner>,
        mems: &mut Vec<MemInstInner>,
        globals: &mut Vec<GlobalInst>,
    ) -> (r: Result<(), Error>)
        requires
            f.module < modules@.len(),
        ensures
            ({
                let s = StoreView {
                    funcs: funcs@,
                    modules: modules@,
                    tables: tables@,
                    mems: mems_view(old(mems)@),
                    globals: old(globals)@,
                };
                match spec_exec(s, old(self)@, f, *inst) {
                    Ok((s2, m2)) => r is Ok && final(self)@ == m2 && s2 == (StoreView {
                        funcs: funcs@,
                        modules: modules@,
                        tables: tables@,
                        mems: mems_view(final(mems)@),
                        globals: final(globals)@,
                    }),
                    Err(e) => r == Err::<(), Error>(e) && mems_view(final(mems)@) == mems_view(
                        old(mems)@,
                    ) && final(globals)@ == old(globals)@,
                }
            }),
            final(self).max_depth == old(self).max_depth,
    {
        let mi = &modules[f.module];
        let ghost s = StoreView {
            funcs: funcs@,
            modules: modules@,
            tables: tables@,
            mems: mems_view(mems@),
            globals: globals@,
        };
        match inst {
            Inst::Block(bt, _) => {
                let (p, q) = block_arity(*bt, &mi.types)?;
                self.enter(p, q, false, false)
            },
            Inst::Loop(bt, _) => {
                let (p, q) = block_arity(*bt, &mi.types)?;
                self.enter(p, q, true, false)
            },
            Inst::IfElse(bt, _, _) => {
                let c = self.stack.pop_i32()?;
                let (p, q) = block_arity(*bt, &mi.types)?;
                self.enter(p, q, false, c == 0)
            },
            Inst::Unreachable | Inst::Return | Inst::Break(_) | Inst::BreakIf(_) | Inst::BreakTable(
                _,
                _,
            ) => {
                match exec_branching(inst, &mut self.stack) {
                    Ok(()) => Ok(()),
                    Err(Exception::Break(n)) => self.branch(funcs, n),
                    Err(Exception::Return) => self.do_return(funcs),
                    Err(Exception::Runtime(e)) => Err(e),
                }
            },
            Inst::Call(fi) => {
                if fi.0 as usize >= mi.func_addrs.len() {
                    return Err(Error::FunctionNotFound);
                }
                let addr: usize = mi.func_addrs[fi.0 as usize].0;
                assert(spec_begin_call(s, self@, addr) == spec_begin_call(s, self@, addr));
                self.begin_call(funcs, modules, addr)
            },
            Inst::CallIndirect(t, tab) => {
                assert(spec_call_indirect(s, self@, *mi, *t, *tab) == spec_call_indirect(
                    s,
                    self@,
                    *mi,
                    *t,
                    *tab,
                ));
                self.call_indirect(funcs, modules, tables, mi, *t, *tab)
            },
            Inst::LocalGet(_) | Inst::LocalSet(_) | Inst::LocalTee(_) => {
                exec_local(inst, &mut self.stack, &mut self.locals, f.locals_base)
            },
            Inst::GlobalGet(_) | Inst::GlobalSet(_) => {
                exec_global(inst, &mut self.stack, globals, &mi.global_addrs)
            },
            Inst::Load(_, _) | Inst::Store(_, _) | Inst::MemorySize | Inst::MemoryGrow => {
                exec_memory(inst, &mut self.stack, mems, &mi.mem_addrs)
            },
            Inst::Float(op) => self.ask_float(*op),
            _ => exec_pure(inst, &mut self.stack),
        }
    }

    /// One step of a machine that has a frame and waits for nothing. On a
    /// trap the store is as it was.
    fn step_inner(&mut self, store: &mut Store) -> (r: Result<(), Error>)
        requires
            old(self)@.frames.len() > 0,
        ensures
            match spec_step_inner(old(store)@, old(self)@) {
                Ok((s2, m2)) => r is Ok && final(self)@ == m2 && final(store)@ == s2,
                Err(e) => r == Err::<(), Error>(e) && final(store)@ == old(store)@,
            },
            final(self).max_depth == old(self).max_depth,
    {
        let f = self.frames[self.frames.len() - 1];
        let nl: usize = self.labels.len();
        if f.module >= store.modules.len() || f.labels_base >= nl {
            return Err(Error::SegFault);
        }
        match fetch(&store.modules[f.module], f.code, &self.labels, f.labels_base)? {
            None => self.end(&store.funcs),
            Some(inst) => {
                let l = self.labels[nl - 1];
                proof {
                    let ls = self.labels@.skip(f.labels_base as int);
                    assert(ls.last() == l);
                }
                self.labels[nl - 1] = Label { pc: l.pc + 1, ..l };
                assert(self@ == spec_advance(old(self)@));
                self.exec(
                    inst,
                    f,
                    &store.funcs,
                    &store.modules,
                    &store.tables,
                    &mut store.mems,
                    &mut store.globals,
                )
            },
        }
    }

    /// One step of the machine.
    pub fn step(&mut self, store: &mut Store) -> (r: Status)
        ensures
            (final(store)@, final(self)@, r) == spec_step(old(store)@, old(self)@),
    {
        if self.pending.is_some() || self.frames.len() == 0 {
            return self.status();
        }
        match self.step_inner(store) {
            Ok(()) => self.status(),
            Err(e) => {
                self.reset();
                Status::Trapped(e)
            },
        }
    }

    /// Runs at most `fuel` steps: until every call has returned, a trap
    /// occurred, the embedder is asked, or the steps are used up, in which
    /// case the machine is still running and can be run further.
    pub fn execute(&mut self, store: &mut Store, fuel: u64) -> (r: Status)
        ensures
            (final(store)@, final(self)@, r) == spec_run(old(store)@, old(self)@, fuel as nat),
    {
        let mut left: u64 = fuel;
        while left > 0
            invariant
                spec_run(old(store)@, old(self)@, fuel as nat) == spec_run(store@, self@, left as nat),
            decreases left,
        {
            let status = self.step(store);
            if status != Status::Running {
                return status;
            }
            left = left - 1;
        }
        self.status()
    }

    /// Enters the function at `func_addr` from outside, its arguments on
    /// top of the operand stack. A trap ends every call.
    pub fn call(&mut self, store: &Store, func_addr: FuncAddr) -> (r: Status)
        ensures
            (final(self)@, r) == spec_call(store@, old(self)@, func_addr.0),
    {
        if self.pending.is_some() {
            return self.status();
        }
        assert(spec_begin_call(store@, self@, func_addr.0) == spec_begin_call(
            store@,
            self@,
            func_addr.0,
        ));
        match self.begin_call(&store.funcs, &store.modules, func_addr.0) {
            Ok(()) => self.status(),
            Err(e) => {
                self.reset();
                Status::Trapped(e)
            },
        }
    }

    /// Enters the start function of the module instance at `module`, if it
    /// has one, as instantiation does before it runs it.
    pub fn start(&mut self, store: &Store, module: usize) -> (r: Status)
        ensures
            (final(self)@, r) == spec_start(store@, old(self)@, module),
    {
        if module >= store.modules.len() {
            return self.status();
        }
        match store.modules[module].start {
            None => self.status(),
            Some(f) => {
                if self.pending.is_some() {
                    return self.status();
                }
                match store.modules[module].func_addr(f) {
                    Some(addr) => self.call(store, addr),
                    None => self.fail(Error::FunctionNotFound),
                }
            },
        }
    }

    /// The host function that the machine waits for and the arguments of
    /// the call, for the embedder to make it.
    pub fn host_call(&self, store: &Store) -> (r: Option<(HostFunc, Vec<Val>)>)
        ensures
            match spec_host_call(store@.funcs, self@) {
                Some((f, args)) => r matches Some((g, v)) && g == f && v@ == args,
                None => r is None,
            },
    {
        let addr = match self.pending {
            Some(Request::Host(a)) => a.0,
            _ => {
                return None;
            },
        };
        if addr >= store.funcs.len() {
            return None;
        }
        match &store.funcs[addr] {
            FuncInst::External { typ, func } => {
                let n: usize = typ.from.types.len();
                let len: usize = self.stack.len();
                if n > len {
                    return None;
                }
                let mut args: Vec<Val> = Vec::new();
                let mut i: usize = len - n;
                while i < len
                    invariant
                        n <= len,
                        len - n <= i <= len,
                        len == self.stack@.len(),
                        args@ == self.stack@.subrange(len - n, i as int),
                    decreases len - i,
                {
                    args.push(self.stack.items[i]);
                    i = i + 1;
                    assert(args@ =~= self.stack@.subrange(len - n, i as int));
                }
                assert(args@ =~= self.stack@.skip(len - n));
                Some((*func, args))
            },
            _ => None,
        }
    }

    /// Takes the embedder's answer to the pending request. An answer that
    /// does not fit leaves the machine as it was.
    pub fn resume(&mut self, store: &Store, results: &Vec<Val>) -> (r: Result<(), Error>)
        ensures
            match spec_resume(store@.funcs, old(self)@, results@) {
                Ok(m) => r is Ok && final(self)@ == m,
                Err(e) => r == Err::<(), Error>(e) && final(self)@ == old(self)@,
            },
    {
        let len: usize = self.stack.len();
        let n: usize;
        match self.pending {
            None => {
                return Err(Error::UnexpectedAnswer);
            },
            Some(Request::Host(a)) => {
                if a.0 >= store.funcs.len() {
                    return Err(Error::SegFault);
                }
                match &store.funcs[a.0] {
                    FuncInst::Local { .. } => {
                        return Err(Error::SegFault);
                    },
                    FuncInst::External { typ, .. } => {
                        assert(results@.skip(0) =~= results@);
                        if !kinds_match(results, 0, &typ.to.types) {
                            return Err(Error::UnexpectedAnswer);
                        }
                        n = typ.from.types.len();
                    },
                }
            },
            Some(Request::Float(op)) => {
                if results.len() != 1 || results[0].kind() != op.result_type() {
                    assert(spec_kinds(results@) != seq![op.spec_result_type()]) by {
                        let want = seq![op.spec_result_type()];
                        if results@.len() == 1 {
                            assert(spec_kinds(results@)[0] != want[0]);
                        } else {
                            assert(spec_kinds(results@).len() != want.len());
                        }
                    }
                    return Err(Error::UnexpectedAnswer);
                }
                assert(spec_kinds(results@) =~= seq![op.spec_result_type()]);
                n = op.operands();
            },
        }
        if len < n {
            return Err(Error::StackEmpty);
        }
        self.stack.items.truncate(len - n);
        let ghost base = self.stack@;
        let mut i: usize = 0;
        while i < results.len()
            invariant
                i <= results@.len(),
                self.stack@ == base + results@.take(i as int),
                self.locals == old(self).locals,
                self.labels == old(self).labels,
                self.frames == old(self).frames,
                self.max_depth == old(self).max_depth,
            decreases results@.len() - i,
        {
            self.stack.push(results[i]);
            i = i + 1;
            assert(self.stack@ =~= base + results@.take(i as int));
        }
        assert(results@.take(i as int) =~= results@);
        self.pending = None;
        Ok(())
    }

    /// Ends every call with the trap `e`: what the embedder does where a
    /// host function traps.
    pub fn fail(&mut self, e: Error) -> (r: Status)
        ensures
            final(self)@ == old(self)@.reset(),
            r == Status::Trapped(e),
    {
        self.reset();
        Status::Trapped(e)
    }

    /// Calls the function at `func` with the arguments `args` and runs at
    /// most `fuel` steps. When the status is `Done`, the results lie on top
    /// of the operand stack.
    pub fn invoke(&mut self, store: &mut Store, func: FuncAddr, args: &Vec<Val>, fuel: u64) -> (r:
        Status)
        ensures
            ({
                let pushed = MachineView { stack: old(self)@.stack + args@, ..old(self)@ };
                let (m, status) = spec_call(old(store)@, pushed, func.0);
                if status == Status::Running {
                    (final(store)@, final(self)@, r) == spec_run(old(store)@, m, fuel as nat)
                } else {
                    final(store)@ == old(store)@ && final(self)@ == m && r == status
                }
            }),
    {
        let mut i: usize = 0;
        while i < args.len()
            invariant
                i <= args@.len(),
                self.stack@ == old(self)@.stack + args@.take(i as int),
                self.locals == old(self).locals,
                self.labels == old(self).labels,
                self.frames == old(self).frames,
                self.pending == old(self).pending,
                self.max_depth == old(self).max_depth,
                store@ == old(store)@,
            decreases args@.len() - i,
        {
            self.stack.push(args[i]);
            i = i + 1;
            assert(self.stack@ =~= old(self)@.stack + args@.take(i as int));
        }
        assert(args@.take(i as int) =~= args@);
        let status = self.call(store, func);
        if status != Status::Running {
            return status;
        }
        self.execute(store, fuel)
    }
}

/// The call with the frame `f0` is the outermost of the machine and has
/// not returned.
pub open spec fn spec_outermost(funcs: Seq<FuncInst>, m: MachineView, f0: Frame) -> bool {
    m.frames.len() >= 1 && m.frames[0] == f0 && f0.func < funcs.len()
}

/// The call with the frame `f0` has returned and no call is left: the
/// operand stack stands above the height at which the call began by
/// exactly the number of the function's results, and the values there have
/// the kinds of the results.
pub open spec fn spec_returned(funcs: Seq<FuncInst>, m: MachineView, f0: Frame) -> bool {
    let results = funcs[f0.func as int].spec_typ().to@;
    &&& m.frames.len() == 0
    &&& m.stack.len() == f0.stack_base + results.len()
    &&& spec_kinds(m.stack.skip(f0.stack_base as int)) == results
}

/// One step of a machine whose outermost call has the frame `f0` ends in a
/// trap, leaves that call the outermost, or returns from it.
pub proof fn lemma_step_outermost(s: StoreView, m: MachineView, f0: Frame)
    requires
        spec_outermost(s.funcs, m, f0),
    ensures
        ({
            let (s2, m2, status) = spec_step(s, m);
            status is Trapped || spec_outermost(s.funcs, m2, f0) || spec_returned(s.funcs, m2, f0)
        }),
{
    let (s2, m2, status) = spec_step(s, m);
    if m.pending is None && spec_step_inner(s, m) is Ok {
        if m2.frames.len() == 0 {
            assert(m.frames.len() == 1);
            assert(m.frames.last() == f0);
            // The step that left no frame was the return of the outermost call.
            let before = choose|b: MachineView|
                spec_return(s.funcs, b) == Ok::<MachineView, Error>(m2) && b.frames == m.frames;
            lemma_return_arity(s.funcs, before);
        } else {
            assert(m2.frames[0] == m.frames[0]);
        }
    }
}

/// A run of a machine whose outermost call has the frame `f0`, if it ends
/// with every call returned, ends with the results of that call on the
/// height at which it began.
pub proof fn lemma_run_outermost(s: StoreView, m: MachineView, f0: Frame, fuel: nat)
    requires
        spec_outermost(s.funcs, m, f0),
        spec_run(s, m, fuel).2 == Status::Done,
    ensures
        spec_returned(s.funcs, spec_run(s, m, fuel).1, f0),
    decreases fuel,
{
    if fuel > 0 {
        let (s2, m2, status) = spec_step(s, m);
        lemma_step_outermost(s, m, f0);
        lemma_step_keeps_code(s, m);
        if status == Status::Running {
            lemma_run_outermost(s2, m2, f0, (fuel - 1) as nat);
        }
    }
}

/// A call from outside that returns leaves on the operand stack, above
/// what lay below the arguments, exactly the results of the function:
/// as many values as its type has results, of their kinds. This holds of a
/// run that ends with every call returned, whatever the function's body.
pub proof fn lemma_call_returns_results(s: StoreView, m: MachineView, addr: usize, fuel: nat)
    requires
        m.frames.len() == 0,
        m.pending is None,
        m.stack.len() <= usize::MAX,
        spec_call(s, m, addr).1 == Status::Running,
        spec_run(s, spec_call(s, m, addr).0, fuel).2 == Status::Done,
    ensures
        ({
            let typ = s.funcs[addr as int].spec_typ();
            let after = spec_run(s, spec_call(s, m, addr).0, fuel).1;
            let base = m.stack.len() - typ.from@.len();
            &&& addr < s.funcs.len()
            &&& 0 <= base
            &&& after.stack.len() == base + typ.to@.len()
            &&& spec_kinds(after.stack.skip(base)) == typ.to@
        }),
{
    let entered = spec_call(s, m, addr).0;
    assert(spec_begin_call(s, m, addr) is Ok);
    assert(s.funcs[addr as int] is Local);
    let typ = s.funcs[addr as int].spec_typ();
    let f0 = entered.frames[0];
    assert(spec_args(m.stack, typ.from@) is Ok);
    assert(entered.frames.len() == 1);
    assert(f0.func == addr);
    assert(f0.stack_base == m.stack.len() - typ.from@.len());
    lemma_run_outermost(s, entered, f0, fuel);
}

/// After a normal return the operand stack stands above the height at
/// which the call began by exactly the number of the function's results,
/// the values there have the kinds of the results, and what lay below is
/// untouched.
pub proof fn lemma_return_arity(funcs: Seq<FuncInst>, m: MachineView)
    requires
        spec_return(funcs, m) is Ok,
    ensures
        ({
            let after = spec_return(funcs, m)->Ok_0;
            let f = m.frames.last();
            let results = funcs[f.func as int].spec_typ().to@;
            &&& after.stack.len() == f.stack_base + results.len()
            &&& spec_kinds(after.stack.skip(f.stack_base as int)) == results
            &&& after.stack.take(f.stack_base as int) == m.stack.take(f.stack_base as int)
            &&& after.frames == m.frames.drop_last()
        }),
{
    let after = spec_return(funcs, m)->Ok_0;
    let f = m.frames.last();
    let n = funcs[f.func as int].spec_typ().to@.len();
    assert(after.stack.skip(f.stack_base as int) =~= m.stack.skip(m.stack.len() - n));
    assert(after.stack.take(f.stack_base as int) =~= m.stack.take(f.stack_base as int));
}

/// A branch to a label inside the function keeps exactly as many values as
/// the label's arity: they are the values that lay on top before, and they
/// now lie on the label's height.
pub proof fn lemma_branch_arity(funcs: Seq<FuncInst>, m: MachineView, n: usize)
    requires
        spec_branch(funcs, m, n) is Ok,
        n < m.labels.len() - 1 - m.frames.last().labels_base,
    ensures
        ({
            let after = spec_branch(funcs, m, n)->Ok_0;
            let target = m.labels[m.labels.len() - 1 - n];
            &&& after.stack.len() == target.height + target.arity
            &&& after.stack.skip(target.height as int) == m.stack.skip(m.stack.len() - target.arity)
            &&& after.stack.take(target.height as int) == m.stack.take(target.height as int)
            &&& after.frames == m.frames
        }),
{
    let after = spec_branch(funcs, m, n)->Ok_0;
    let target = m.labels[m.labels.len() - 1 - n];
    assert(after.stack.skip(target.height as int) =~= m.stack.skip(m.stack.len() - target.arity));
    assert(after.stack.take(target.height as int) =~= m.stack.take(target.height as int));
}

/// The value that a constant instruction pushes.
pub open spec fn spec_constant(inst: Inst) -> Option<Val> {
    match inst {
        Inst::I32Const(v) => Some(Val::I32(v)),
        Inst::I64Const(v) => Some(Val::I64(v)),
        Inst::F32Const(v) => Some(Val::F32(v)),
        Inst::F64Const(v) => Some(Val::F64(v)),
        _ => None,
    }
}

/// The instruction sequence of the innermost label does not depend on how
/// far the label has got in it.
pub proof fn lemma_code_ignores_position(body: Seq<Inst>, ls: Seq<Label>, pc: usize)
    requires
        ls.len() > 0,
    ensures
        spec_code(body, ls.update(ls.len() - 1, Label { pc, ..ls.last() })) == spec_code(body, ls),
{
    let moved = ls.update(ls.len() - 1, Label { pc, ..ls.last() });
    assert(moved.drop_last() =~= ls.drop_last());
}

/// `select` is a conditional with the same condition: a conditional whose
/// two sequences each push one constant, run to its end, leaves on the
/// operand stack what `select` leaves when it finds the two constants and
/// the condition there, and leaves everything else of the machine and the
/// store as it would be after one instruction.
#[verifier::rlimit(50)]
pub proof fn lemma_conditional_is_select(
    s: StoreView,
    m: MachineView,
    bt: BlockType,
    first: crate::repr::Expr,
    second: crate::repr::Expr,
    st: Seq<Val>,
    c: i32,
)
    requires
        m.pending is None,
        m.frames.len() > 0,
        m.frames.last().module < s.modules.len(),
        m.frames.last().labels_base < m.labels.len(),
        spec_fetch(
            s.modules[m.frames.last().module as int],
            m.frames.last().code,
            m.labels.skip(m.frames.last().labels_base as int),
        ) == Ok::<Option<Inst>, Error>(Some(Inst::IfElse(bt, first, second))),
        spec_block_arity(bt, s.modules[m.frames.last().module as int].types@) == Ok::<
            (nat, nat),
            Error,
        >((0, 1)),
        first.instructions@.len() == 1,
        second.instructions@.len() == 1,
        spec_constant(first.instructions@[0]) is Some,
        spec_constant(second.instructions@[0]) is Some,
        spec_constant(first.instructions@[0])->Some_0.spec_kind() == spec_constant(
            second.instructions@[0],
        )->Some_0.spec_kind(),
        m.stack == st.push(Val::I32(c)),
        m.labels.last().pc < usize::MAX,
        st.len() < usize::MAX,
    ensures
        ({
            let v1 = spec_constant(first.instructions@[0])->Some_0;
            let v2 = spec_constant(second.instructions@[0])->Some_0;
            let chosen = if c != 0 { v1 } else { v2 };
            &&& spec_pure(Inst::Select, st.push(v1).push(v2).push(Val::I32(c))) == Ok::<
                Seq<Val>,
                Error,
            >(st.push(chosen))
            &&& spec_run(s, m, 3) == (
                s,
                MachineView { stack: st.push(chosen), ..spec_advance(m) },
                Status::Running,
            )
        }),
{
    let v1 = spec_constant(first.instructions@[0])->Some_0;
    let v2 = spec_constant(second.instructions@[0])->Some_0;
    let chosen = if c != 0 { v1 } else { v2 };
    crate::rt::lemma_select_chooses(st, v1, v2, c);
    let f = m.frames.last();
    let base = f.labels_base as int;
    let mi = s.modules[f.module as int];
    let body = mi.funcs@[f.code as int].body@;
    let ls = m.labels.skip(base);
    let inst = Inst::IfElse(bt, first, second);
    let at = m.labels.last().pc;
    // the first step enters the conditional
    let m0 = spec_advance(m);
    assert(m.stack.drop_last() =~= st);
    let opened = Label {
        arity: 1,
        height: st.len() as usize,
        pc: 0,
        at,
        alt: c == 0,
        is_loop: false,
    };
    let m1 = MachineView { stack: st, labels: m0.labels.push(opened), ..m0 };
    assert(spec_step(s, m) == (s, m1, Status::Running));
    // the second step pushes the constant of the sequence that was chosen
    let ls0 = m0.labels.skip(base);
    assert(ls0 =~= ls.update(ls.len() - 1, Label { pc: (at + 1) as usize, ..ls.last() }));
    lemma_code_ignores_position(body, ls, (at + 1) as usize);
    let ls1 = m1.labels.skip(base);
    assert(ls1 =~= ls0.push(opened));
    assert(ls1.drop_last() =~= ls0);
    let parent = spec_code(body, ls)->Some_0;
    assert(parent[at as int] == inst);
    let chosen_seq = if c == 0 { second.instructions@ } else { first.instructions@ };
    assert(spec_code(body, ls1) == Some(chosen_seq));
    let k = chosen_seq[0];
    assert(spec_fetch(mi, f.code, ls1) == Ok::<Option<Inst>, Error>(Some(k)));
    let m1a = spec_advance(m1);
    let m2 = MachineView { stack: st.push(chosen), ..m1a };
    assert(spec_exec(s, m1a, f, k) == Ok::<(StoreView, MachineView), Error>((s, m2)));
    assert(spec_step(s, m1) == (s, m2, Status::Running));
    // the third step finds the end of the sequence and leaves its label
    let ls2 = m2.labels.skip(base);
    assert(ls2 =~= ls1.update(ls1.len() - 1, Label { pc: 1, ..ls1.last() }));
    lemma_code_ignores_position(body, ls1, 1);
    assert(spec_fetch(mi, f.code, ls2) == Ok::<Option<Inst>, Error>(None));
    let m3 = MachineView { labels: m2.labels.drop_last(), ..m2 };
    assert(m2.labels.drop_last() =~= m0.labels);
    assert(spec_step(s, m2) == (s, m3, Status::Running));
    assert(m3 == MachineView { stack: st.push(chosen), ..m0 });
    reveal_with_fuel(spec_run, 4);
}

} // verus!
