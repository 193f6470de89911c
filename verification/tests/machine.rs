use wasm::instance::{
    instantiate, ExternVal, Externals, FuncAddr, FuncInst, GlobalAddr, HostFunc, LinkError, MemAddr,
    Name, Store,
};
use wasm::linking::{host_table, place_of};
use wasm::repr::{
    BlockType, Data, Datamode, Elem, ElemMode, Expr, FloatBinop, FloatOp, Func, FuncIdx, FuncType,
    Global, GlobalIdx, GlobalType, Import, ImportDesc, Inst, IntBinop, IntConv, IntRelop, IntUnop,
    LabelIdx, Limits, LoadOp, LocalIdx, Locals, MemArg, MemIdx, MemType, Module, Reftype,
    ResultType, StoreOp, TableIdx, TableType, TypeIdx, ValType,
};
use wasm::rt::{
    default_value, i32gt_u, i32shr_u, Error, Exception, Machine, Ref, Request, Stack,
    Status, Val,
};

/// Instantiates a module whose start function, if it has one, ends within
/// a thousand steps.
fn install(module: Module, store: &mut Store, externals: &Externals) -> Result<usize, LinkError> {
    instantiate(module, store, externals, &mut Machine::new(16), 1000).map(|r| r.0)
}

fn functype(from: Vec<ValType>, to: Vec<ValType>) -> FuncType {
    FuncType { from: ResultType { types: from }, to: ResultType { types: to } }
}

/// A module of one function of type `from -> to` with the locals and the
/// body given, and one page of memory.
fn one_function(from: Vec<ValType>, to: Vec<ValType>, locals: Vec<Locals>, body: Vec<Inst>) -> Module {
    let mut module = Module::new();
    module.types.push(functype(from, to));
    module.mems.push(MemType { limits: Limits { min: 1, max: Some(2) } });
    module.funcs.push(Func { typ: TypeIdx(0), locals, body });
    module
}

fn run_with(module: Module, args: Vec<Val>, depth: usize, fuel: u64) -> (Status, Vec<Val>, Store) {
    let mut store = Store::new();
    let instance = install(module, &mut store, &Externals::new()).unwrap();
    let func = store.modules[instance].func_addrs[0];
    let mut machine = Machine::new(depth);
    let status = machine.invoke(&mut store, func, &args, fuel);
    (status, machine.stack.items, store)
}

fn run(from: Vec<ValType>, to: Vec<ValType>, body: Vec<Inst>, args: Vec<Val>) -> (Status, Vec<Val>) {
    let (status, stack, _) = run_with(one_function(from, to, vec![], body), args, 16, 10_000);
    (status, stack)
}

fn trap(body: Vec<Inst>) -> Status {
    run(vec![], vec![], body, vec![]).0
}

const I32: ValType = ValType::I32;

#[test]
fn tee_is_set_then_get() {
    let locals = vec![Locals { n: 1, t: I32 }];
    let tee = vec![Inst::I32Const(41), Inst::LocalTee(LocalIdx(0)), Inst::LocalGet(LocalIdx(0))];
    let set_get = vec![
        Inst::I32Const(41),
        Inst::LocalSet(LocalIdx(0)),
        Inst::LocalGet(LocalIdx(0)),
        Inst::LocalGet(LocalIdx(0)),
    ];
    let both = |body| {
        let module = one_function(vec![], vec![I32, I32], locals.clone(), body);
        let (status, stack, _) = run_with(module, vec![], 4, 100);
        (status, stack)
    };
    assert_eq!(both(tee), (Status::Done, vec![Val::I32(41), Val::I32(41)]));
    assert_eq!(both(set_get), (Status::Done, vec![Val::I32(41), Val::I32(41)]));
}

#[test]
fn select_is_a_conditional() {
    for c in [0, 1, -5] {
        let select = vec![Inst::I32Const(7), Inst::I32Const(9), Inst::I32Const(c), Inst::Select];
        let cond = vec![
            Inst::I32Const(c),
            Inst::IfElse(
                BlockType::Inline(I32),
                Expr { instructions: vec![Inst::I32Const(7)] },
                Expr { instructions: vec![Inst::I32Const(9)] },
            ),
        ];
        let want = (Status::Done, vec![Val::I32(if c != 0 { 7 } else { 9 })]);
        assert_eq!(run(vec![], vec![I32], select, vec![]), want);
        assert_eq!(run(vec![], vec![I32], cond, vec![]), want);
    }
    assert_eq!(
        trap(vec![Inst::I32Const(1), Inst::I64Const(2), Inst::I32Const(0), Inst::Select]),
        Status::Trapped(Error::WrongValType)
    );
}

#[test]
fn memory_grows_within_its_bound() {
    let body = vec![
        Inst::I32Const(0),
        Inst::MemoryGrow,
        Inst::I32Const(1),
        Inst::MemoryGrow,
        Inst::MemorySize,
        Inst::I32Const(1),
        Inst::MemoryGrow,
        Inst::MemorySize,
    ];
    let module = one_function(vec![], vec![I32, I32, I32, I32, I32], vec![], body);
    let (status, stack, store) = run_with(module, vec![], 4, 100);
    assert_eq!(status, Status::Done);
    assert_eq!(
        stack,
        vec![Val::I32(1), Val::I32(1), Val::I32(2), Val::I32(-1), Val::I32(2)]
    );
    assert_eq!(store.mems[0].data.len(), 2 * 65536);
    assert!(store.mems[0].data.iter().all(|b| *b == 0));
}

#[test]
fn branches_keep_the_arity_of_their_label() {
    // the block leaves one value of the three that lie on the stack
    let inner = vec![Inst::I32Const(1), Inst::I32Const(2), Inst::I32Const(3), Inst::Break(LabelIdx(0))];
    let body = vec![Inst::I32Const(9), Inst::Block(BlockType::Inline(I32), Expr { instructions: inner })];
    assert_eq!(
        run(vec![], vec![I32, I32], body, vec![]),
        (Status::Done, vec![Val::I32(9), Val::I32(3)])
    );
    // a branch to the label of the function is a return
    let body = vec![
        Inst::I32Const(4),
        Inst::I32Const(5),
        Inst::Block(BlockType::Empty, Expr { instructions: vec![Inst::Break(LabelIdx(1))] }),
        Inst::Unreachable,
    ];
    assert_eq!(run(vec![], vec![I32], body, vec![]), (Status::Done, vec![Val::I32(5)]));
    assert_eq!(trap(vec![Inst::Break(LabelIdx(3))]), Status::Trapped(Error::LabelNotFound));
}

#[test]
fn br_table_selects_a_label() {
    let table = |i: i32| {
        let innermost = vec![
            Inst::I32Const(i),
            Inst::BreakTable(vec![LabelIdx(0), LabelIdx(1)], LabelIdx(2)),
        ];
        let inner = vec![
            Inst::Block(BlockType::Empty, Expr { instructions: innermost }),
            Inst::I32Const(10),
            Inst::Return,
        ];
        let outer = vec![
            Inst::Block(BlockType::Empty, Expr { instructions: inner }),
            Inst::I32Const(20),
            Inst::Return,
        ];
        let body = vec![Inst::Block(BlockType::Empty, Expr { instructions: outer }), Inst::I32Const(30)];
        run(vec![], vec![I32], body, vec![]).1
    };
    assert_eq!(table(0), vec![Val::I32(10)]);
    assert_eq!(table(1), vec![Val::I32(20)]);
    assert_eq!(table(2), vec![Val::I32(30)]);
    assert_eq!(table(-1), vec![Val::I32(30)]);
}

#[test]
fn calls_return_as_many_values_as_the_type_says() {
    let mut module = Module::new();
    module.types.push(functype(vec![I32, I32], vec![I32]));
    module.types.push(functype(vec![], vec![I32]));
    module.funcs.push(Func {
        typ: TypeIdx(1),
        locals: vec![],
        body: vec![
            Inst::I32Const(100),
            Inst::I32Const(7),
            Inst::I32Const(5),
            Inst::Call(FuncIdx(1)),
            Inst::I32Binary(IntBinop::Add),
        ],
    });
    module.funcs.push(Func {
        typ: TypeIdx(0),
        locals: vec![Locals { n: 2, t: ValType::I64 }],
        body: vec![
            Inst::I32Const(77),
            Inst::LocalGet(LocalIdx(0)),
            Inst::LocalGet(LocalIdx(1)),
            Inst::I32Binary(IntBinop::Sub),
            Inst::LocalGet(LocalIdx(3)),
            Inst::Drop,
        ],
    });
    let (status, stack, _) = run_with(module, vec![], 4, 100);
    assert_eq!((status, stack), (Status::Done, vec![Val::I32(102)]));
}

#[test]
fn a_result_of_the_wrong_kind_is_a_trap() {
    assert_eq!(
        run(vec![], vec![I32], vec![Inst::I64Const(1)], vec![]).0,
        Status::Trapped(Error::WrongValType)
    );
    assert_eq!(run(vec![], vec![I32], vec![], vec![]).0, Status::Trapped(Error::StackEmpty));
    assert_eq!(
        run(vec![I32], vec![], vec![], vec![Val::I64(1)]).0,
        Status::Trapped(Error::WrongValType)
    );
}

#[test]
fn every_trap_has_its_cause() {
    assert_eq!(trap(vec![Inst::Unreachable]), Status::Trapped(Error::Unreachable));
    assert_eq!(trap(vec![Inst::Drop]), Status::Trapped(Error::StackEmpty));
    assert_eq!(trap(vec![Inst::LocalGet(LocalIdx(0))]), Status::Trapped(Error::LocalNotFound));
    assert_eq!(trap(vec![Inst::Call(FuncIdx(9))]), Status::Trapped(Error::FunctionNotFound));
    assert_eq!(trap(vec![Inst::GlobalGet(GlobalIdx(0))]), Status::Trapped(Error::SegFault));
    assert_eq!(
        trap(vec![Inst::I32Const(1), Inst::I32Const(0), Inst::I32Binary(IntBinop::RemU)]),
        Status::Trapped(Error::IntegerDivideByZero)
    );
    assert_eq!(
        trap(vec![
            Inst::I64Const(i64::MIN),
            Inst::I64Const(-1),
            Inst::I64Binary(IntBinop::DivS)
        ]),
        Status::Trapped(Error::IntegerOverflow)
    );
    let arg = MemArg { align: 3, offset: 0 };
    assert_eq!(
        trap(vec![Inst::I32Const(0), Inst::Load(LoadOp::I32Load, arg)]),
        Status::Trapped(Error::InvalidAlignment)
    );
    let arg = MemArg { align: 0, offset: u32::MAX };
    assert_eq!(
        trap(vec![Inst::I32Const(1), Inst::Load(LoadOp::I32Load8U, arg)]),
        Status::Trapped(Error::MemoryOutOfBounds { addr: 1 << 32, len: 1 })
    );
    assert_eq!(
        trap(vec![Inst::I32Const(0), Inst::I64Const(0), Inst::Store(StoreOp::I32Store, MemArg { align: 0, offset: 0 })]),
        Status::Trapped(Error::WrongValType)
    );
    assert_eq!(trap(vec![Inst::Call(FuncIdx(0))]), Status::Trapped(Error::CallStackExhausted));
}

#[test]
fn a_machine_out_of_steps_can_be_run_further() {
    let body = vec![Inst::Loop(BlockType::Empty, Expr { instructions: vec![Inst::Break(LabelIdx(0))] })];
    let (status, _, mut store) = run_with(one_function(vec![], vec![], vec![], body), vec![], 4, 50);
    assert_eq!(status, Status::Running);
    let mut machine = Machine::new(4);
    assert_eq!(machine.execute(&mut store, 10), Status::Done);
    assert_eq!(machine.step(&mut store), Status::Done);
    let func = store.modules[0].func_addrs[0];
    assert_eq!(machine.call(&store, func), Status::Running);
    assert_eq!(machine.execute(&mut store, 7), Status::Running);
    assert_eq!(machine.frames.len(), 1);
    assert_eq!(machine.fail(Error::Host), Status::Trapped(Error::Host));
    assert!(machine.frames.is_empty() && machine.labels.is_empty());
}

#[test]
fn globals_are_read_and_written() {
    let mut module = one_function(
        vec![],
        vec![I32],
        vec![],
        vec![
            Inst::GlobalGet(GlobalIdx(0)),
            Inst::I32Const(1),
            Inst::I32Binary(IntBinop::Add),
            Inst::GlobalSet(GlobalIdx(0)),
            Inst::GlobalGet(GlobalIdx(0)),
        ],
    );
    module.globals.push(Global {
        typ: GlobalType { mutable: true, t: I32 },
        init: vec![Inst::I32Const(41)],
    });
    let (status, stack, store) = run_with(module, vec![], 4, 100);
    assert_eq!((status, stack), (Status::Done, vec![Val::I32(42)]));
    assert_eq!(store.globals[0].value, Val::I32(42));

    let mut module =
        one_function(vec![], vec![], vec![], vec![Inst::I32Const(1), Inst::GlobalSet(GlobalIdx(0))]);
    module.globals.push(Global {
        typ: GlobalType { mutable: false, t: I32 },
        init: vec![Inst::I32Const(41)],
    });
    assert_eq!(run_with(module, vec![], 4, 100).0, Status::Trapped(Error::ImmutableGlobal));
}

#[test]
fn loads_extend_and_stores_truncate() {
    let at = |offset: u32| MemArg { align: 0, offset };
    let body = vec![
        Inst::I32Const(0),
        Inst::I64Const(0x1122_3344_5566_7788),
        Inst::Store(StoreOp::I64Store, at(0)),
        Inst::I32Const(0),
        Inst::I32Const(-2),
        Inst::Store(StoreOp::I32Store8, at(8)),
        Inst::I32Const(0),
        Inst::Load(LoadOp::I32Load16U, at(0)),
        Inst::I32Const(0),
        Inst::Load(LoadOp::I32Load8S, at(8)),
        Inst::I32Const(0),
        Inst::Load(LoadOp::I64Load32S, at(5)),
        Inst::I32Const(0),
        Inst::Load(LoadOp::I32Load8U, at(8)),
        Inst::I32Const(0),
        Inst::Load(LoadOp::F64Load, at(0)),
    ];
    let kinds = vec![I32, I32, ValType::I64, I32, ValType::F64];
    let (status, stack, store) = run_with(one_function(vec![], kinds, vec![], body), vec![], 4, 100);
    assert_eq!(status, Status::Done);
    assert_eq!(
        stack,
        vec![
            Val::I32(0x7788),
            Val::I32(-2),
            Val::I64(0xFFFF_FFFF_FE11_2233u64 as i64),
            Val::I32(0xFE),
            Val::F64(0x1122_3344_5566_7788),
        ]
    );
    assert_eq!(&store.mems[0].data[..9], &[0x88, 0x77, 0x66, 0x55, 0x44, 0x33, 0x22, 0x11, 0xFE]);
}

#[test]
fn floating_point_is_asked_of_the_embedder() {
    let body = vec![
        Inst::F64Const(1.5f64.to_bits()),
        Inst::F64Const(2.25f64.to_bits()),
        Inst::Float(FloatOp::Binary64(FloatBinop::Add)),
        Inst::Convert(IntConv::I64ReinterpretF64),
    ];
    let mut store = Store::new();
    let module = one_function(vec![], vec![ValType::I64], vec![], body);
    let instance = install(module, &mut store, &Externals::new()).unwrap();
    let func = store.modules[instance].func_addrs[0];
    let mut machine = Machine::new(4);
    let op = FloatOp::Binary64(FloatBinop::Add);
    assert_eq!(machine.invoke(&mut store, func, &vec![], 100), Status::Float(op));
    assert_eq!(machine.pending, Some(Request::Float(op)));
    assert_eq!(machine.step(&mut store), Status::Float(op));
    let (Val::F64(a), Val::F64(b)) = (machine.stack.items[0], machine.stack.items[1]) else {
        panic!("two numbers")
    };
    assert_eq!(machine.resume(&store, &vec![Val::I32(1)]), Err(Error::UnexpectedAnswer));
    assert_eq!(machine.resume(&store, &vec![]), Err(Error::UnexpectedAnswer));
    let sum = f64::from_bits(a) + f64::from_bits(b);
    assert_eq!(machine.resume(&store, &vec![Val::F64(sum.to_bits())]), Ok(()));
    assert_eq!(machine.resume(&store, &vec![Val::F64(0)]), Err(Error::UnexpectedAnswer));
    assert_eq!(machine.execute(&mut store, 100), Status::Done);
    assert_eq!(machine.stack.items, vec![Val::I64(3.75f64.to_bits() as i64)]);

    let mut machine = Machine::new(4);
    machine.invoke(&mut store, func, &vec![], 100);
    assert_eq!(machine.fail(Error::InvalidConversion), Status::Trapped(Error::InvalidConversion));
    assert_eq!(machine.status(), Status::Done);
}

fn starting(body: Vec<Inst>) -> Module {
    let mut module = one_function(vec![], vec![], vec![], body);
    module.start = Some(FuncIdx(0));
    module
}

fn store_byte(at: i32, byte: i32) -> Vec<Inst> {
    vec![Inst::I32Const(at), Inst::I32Const(byte), Inst::Store(StoreOp::I32Store8, MemArg { align: 0, offset: 0 })]
}

#[test]
fn instantiation_runs_the_start_function() {
    let mut store = Store::new();
    let mut machine = Machine::new(4);
    let r = instantiate(starting(store_byte(3, 0x41)), &mut store, &Externals::new(), &mut machine, 100);
    assert_eq!(r, Ok((0, Status::Done)));
    assert_eq!(store.mems[0].data[3], 0x41);
    assert_eq!(machine.status(), Status::Done);

    let quiet = one_function(vec![], vec![], vec![], store_byte(3, 0x41));
    let r = instantiate(quiet, &mut store, &Externals::new(), &mut machine, 100);
    assert_eq!(r, Ok((1, Status::Done)));
    assert_eq!(store.mems[1].data[3], 0);
}

#[test]
fn the_machine_is_emptied_before_the_start_function_runs() {
    let mut store = Store::new();
    let mut machine = Machine::new(4);
    machine.stack.push(Val::I32(9));
    let r = instantiate(starting(store_byte(0, 1)), &mut store, &Externals::new(), &mut machine, 100);
    assert_eq!(r, Ok((0, Status::Done)));
    assert_eq!(machine.stack.items, vec![]);
}

#[test]
fn a_trap_of_the_start_function_fails_instantiation() {
    let mut store = Store::new();
    let mut machine = Machine::new(4);
    let first = one_function(vec![], vec![], vec![], vec![]);
    assert_eq!(instantiate(first, &mut store, &Externals::new(), &mut machine, 100), Ok((0, Status::Done)));
    store.mems[0].data[7] = 0x11;

    let mut body = store_byte(5, 0x7f);
    body.push(Inst::Unreachable);
    let mut module = starting(body);
    module.imports.push(Import { module: "env".to_string(), nm: "memory".to_string(), desc: ImportDesc::Mem(MemType { limits: Limits { min: 1, max: None } }) });
    module.mems.clear();
    module.datas.push(Data { init: vec![0x22], mode: Datamode::Active { memory: MemIdx(0), offset: vec![Inst::I32Const(7)] } });
    let mut externals = Externals::new();
    externals.insert(Name::new("env", "memory"), ExternVal::ExternalMem(MemAddr(0)));
    let r = instantiate(module, &mut store, &externals, &mut machine, 100);
    assert_eq!(r, Err(LinkError::Trap(Error::Unreachable)));
    assert_eq!(store.modules.len(), 1);
    assert_eq!(store.funcs.len(), 1);
    assert_eq!(store.mems.len(), 1);
    assert_eq!(store.mems[0].data[5], 0);
    assert_eq!(store.mems[0].data[7], 0x11);
    assert_eq!(machine.status(), Status::Done);
}

#[test]
fn a_start_function_that_needs_more_steps_is_handed_back() {
    let mut store = Store::new();
    let mut machine = Machine::new(4);
    let r = instantiate(starting(store_byte(3, 0x41)), &mut store, &Externals::new(), &mut machine, 2);
    assert_eq!(r, Ok((0, Status::Running)));
    assert_eq!(store.mems[0].data[3], 0);
    assert_eq!(machine.execute(&mut store, 100), Status::Done);
    assert_eq!(store.mems[0].data[3], 0x41);
}

#[test]
fn a_start_function_of_the_host_is_handed_back() {
    let mut module = Module::new();
    module.types.push(functype(vec![], vec![]));
    module.imports.push(Import { module: "env".to_string(), nm: "init".to_string(), desc: ImportDesc::Func(TypeIdx(0)) });
    module.start = Some(FuncIdx(0));
    let mut store = Store::new();
    let host = store.allochostfunc(functype(vec![], vec![]), HostFunc(3));
    let mut externals = Externals::new();
    externals.insert(Name::new("env", "init"), ExternVal::ExternalFunc(host));
    let mut machine = Machine::new(4);
    let r = instantiate(module, &mut store, &externals, &mut machine, 100);
    assert!(matches!(r, Ok((0, Status::Host(_)))));
    assert_eq!(machine.resume(&store, &vec![]), Ok(()));
    assert_eq!(machine.execute(&mut store, 100), Status::Done);
}

#[test]
fn the_start_function_is_entered_on_request() {
    let quiet = one_function(vec![], vec![], vec![], store_byte(3, 0x41));
    let mut store = Store::new();
    let instance = install(quiet, &mut store, &Externals::new()).unwrap();
    store.modules[instance].start = Some(FuncIdx(0));
    let mut machine = Machine::new(4);
    assert_eq!(machine.start(&store, instance), Status::Running);
    assert_eq!(machine.execute(&mut store, 100), Status::Done);
    assert_eq!(store.mems[0].data[3], 0x41);
    assert_eq!(machine.start(&store, 7), Status::Done);
}

#[test]
fn instantiation_checks_the_module() {
    let link = |module: Module| install(module, &mut Store::new(), &Externals::new());
    let mut module = Module::new();
    module.funcs.push(Func { typ: TypeIdx(0), locals: vec![], body: vec![] });
    assert_eq!(link(module), Err(LinkError::Invalid));
    let mut module = Module::new();
    module.mems.push(MemType { limits: Limits { min: 2, max: Some(1) } });
    assert_eq!(link(module), Err(LinkError::Invalid));
    let mut module = Module::new();
    module.start = Some(FuncIdx(0));
    assert_eq!(link(module), Err(LinkError::Invalid));
    let mut module = Module::new();
    module.globals.push(Global { typ: GlobalType { mutable: false, t: I32 }, init: vec![Inst::I64Const(1)] });
    assert_eq!(link(module), Err(LinkError::Invalid));
    let mut module = Module::new();
    module.globals.push(Global { typ: GlobalType { mutable: false, t: I32 }, init: vec![Inst::Drop] });
    assert_eq!(link(module), Err(LinkError::Trap(Error::StackEmpty)));
    let mut module = Module::new();
    module.globals.push(Global { typ: GlobalType { mutable: false, t: I32 }, init: vec![Inst::MemorySize] });
    assert_eq!(link(module), Err(LinkError::Invalid));
    let mut module = Module::new();
    module.tables.push(TableType { reftype: Reftype::Funcref, limits: Limits { min: 1, max: None } });
    module.elems.push(Elem {
        typ: Reftype::Funcref,
        init: vec![],
        mode: ElemMode::Active { table: TableIdx(0), offset: vec![Inst::I32Const(2)] },
    });
    assert_eq!(link(module), Err(LinkError::Trap(Error::TableOutOfBounds)));
    let mut module = Module::new();
    module.datas.push(Data { init: vec![], mode: Datamode::Active { memory: MemIdx(0), offset: vec![] } });
    assert_eq!(link(module), Err(LinkError::Invalid));
}

#[test]
fn imports_of_every_kind_are_linked() {
    let mut store = Store::new();
    let table = store.alloctable(
        TableType { reftype: Reftype::Funcref, limits: Limits { min: 3, max: Some(4) } },
        Ref::Null(Reftype::Funcref),
    );
    let mem = store.allocmem(MemType { limits: Limits { min: 1, max: None } }).unwrap();
    let global = store.allocglobal(GlobalType { mutable: false, t: I32 }, Val::I32(65530));
    let host = store.allochostfunc(functype(vec![], vec![]), HostFunc(5));
    assert_eq!((mem, global, host), (MemAddr(0), GlobalAddr(0), FuncAddr(0)));
    let mut externals = Externals::new();
    externals.insert(Name::new("env", "t"), ExternVal::ExternalTable(table));
    externals.insert(Name::new("env", "m"), ExternVal::ExternalMem(mem));
    externals.insert(Name::new("env", "g"), ExternVal::ExternalGlobal(global));
    externals.insert(Name::new("env", "f"), ExternVal::ExternalFunc(FuncAddr(9)));
    externals.insert(Name::new("env", "f"), ExternVal::ExternalFunc(host));
    assert_eq!(externals.get_func(&Name::new("env", "f")), Some(host));
    assert_eq!(externals.get_func(&Name::new("env", "g")), None);
    assert_eq!(externals.get(&"env".to_string(), &"none".to_string()), None);

    let import = |nm: &str, desc| Import { module: "env".to_string(), nm: nm.to_string(), desc };
    let build = |limits: Limits, data: Vec<u8>| {
        let mut module = Module::new();
        module.types.push(functype(vec![], vec![]));
        module.imports.push(import("f", ImportDesc::Func(TypeIdx(0))));
        module.imports.push(import(
            "t",
            ImportDesc::Table(TableType { reftype: Reftype::Funcref, limits }),
        ));
        module.imports.push(import("m", ImportDesc::Mem(MemType { limits: Limits { min: 1, max: None } })));
        module.imports.push(import("g", ImportDesc::Global(GlobalType { mutable: false, t: I32 })));
        module.funcs.push(Func { typ: TypeIdx(0), locals: vec![], body: vec![] });
        module.elems.push(Elem {
            typ: Reftype::Funcref,
            init: vec![FuncIdx(1), FuncIdx(0)],
            mode: ElemMode::Active { table: TableIdx(0), offset: vec![Inst::I32Const(1)] },
        });
        module.datas.push(Data {
            init: data,
            mode: Datamode::Active { memory: MemIdx(0), offset: vec![Inst::GlobalGet(GlobalIdx(0))] },
        });
        module
    };
    let narrow = Limits { min: 4, max: None };
    assert_eq!(
        install(build(narrow, vec![]), &mut store, &externals),
        Err(LinkError::ImportTypeMismatch)
    );
    let wide = Limits { min: 2, max: Some(8) };
    assert_eq!(
        install(build(wide, vec![1; 7]), &mut store, &externals),
        Err(LinkError::Trap(Error::MemoryOutOfBounds { addr: 65530, len: 7 }))
    );
    assert_eq!(store.funcs.len(), 1);
    assert_eq!(store.tables[0].elem, vec![Ref::Null(Reftype::Funcref); 3]);
    assert!(store.mems[0].data.iter().all(|b| *b == 0));

    let instance = install(build(wide, vec![1, 2, 3]), &mut store, &externals).unwrap();
    assert_eq!(store.modules[instance].func_addrs, vec![FuncAddr(0), FuncAddr(1)]);
    assert_eq!(
        store.tables[0].elem,
        vec![Ref::Null(Reftype::Funcref), Ref::Func(1), Ref::Func(0)]
    );
    assert_eq!(&store.mems[0].data[65530..65533], &[1, 2, 3]);
}

#[test]
fn values_and_their_kinds() {
    assert_eq!(Val::F32(0).kind(), ValType::F32);
    assert_eq!(Val::Reference(Ref::Extern(3)).kind(), ValType::ExternRef);
    assert_eq!(default_value(ValType::I64), Some(Val::I64(0)));
    assert_eq!(default_value(ValType::FuncRef), Some(Val::Reference(Ref::Null(Reftype::Funcref))));
    assert_eq!(default_value(ValType::V128), None);
    assert_eq!(i32gt_u(-1, 1), 1);
    assert_eq!(i32shr_u(-1, 33), 0x7FFF_FFFF);
    assert_eq!(Exception::from(Error::SegFault), Exception::Runtime(Error::SegFault));
    let mut stack = Stack::new();
    assert_eq!(stack.peek(), Err(Error::StackEmpty));
    let counted = run(
        vec![],
        vec![I32],
        vec![Inst::I64Const(-1), Inst::I64Unary(IntUnop::Popcnt), Inst::I64Const(64), Inst::I64Compare(IntRelop::GeU)],
        vec![],
    );
    assert_eq!(counted, (Status::Done, vec![Val::I32(1)]));
    let extended = run(
        vec![],
        vec![ValType::I64],
        vec![Inst::I32Const(-1), Inst::Convert(IntConv::I64ExtendI32U)],
        vec![],
    );
    assert_eq!(extended, (Status::Done, vec![Val::I64(0xFFFF_FFFF)]));
    stack.push(Val::I64(0xFFFF_FFFF));
    assert_eq!(stack.pop_i64(), Ok(0xFFFF_FFFF));
    stack.push(Val::I64(1));
    assert_eq!(stack.pop_i32(), Err(Error::WrongValType));
}

#[test]
fn the_arguments_of_a_host_call_are_handed_out() {
    let mut store = Store::new();
    let mut module = Module::new();
    module.types.push(functype(vec![I32, I32], vec![I32]));
    module.imports.push(Import { module: "env".to_string(), nm: "add".to_string(), desc: ImportDesc::Func(TypeIdx(0)) });
    module.funcs.push(Func {
        typ: TypeIdx(0),
        locals: vec![],
        body: vec![Inst::I32Const(40), Inst::LocalGet(LocalIdx(0)), Inst::LocalGet(LocalIdx(1)), Inst::Call(FuncIdx(0)), Inst::I32Binary(IntBinop::Add)],
    });
    let names = vec![Name::new("env", "sub"), Name::new("env", "add"), Name::new("other", "add"), Name::new("env", "add")];
    let externals = host_table(&module, &mut store, &names);
    assert_eq!(store.funcs.len(), 1);
    assert_eq!(externals.get_func(&Name::new("env", "add")), Some(FuncAddr(0)));
    assert_eq!(externals.get_func(&Name::new("env", "sub")), None);
    assert!(matches!(&store.funcs[0], FuncInst::External { typ, func: HostFunc(3) } if typ.from.types == vec![I32, I32]));

    let instance = install(module, &mut store, &externals).unwrap();
    let func = store.modules[instance].func_addrs[1];
    let mut machine = Machine::new(4);
    assert_eq!(machine.host_call(&store), None);
    let status = machine.invoke(&mut store, func, &vec![Val::I32(2), Val::I32(3)], 100);
    assert_eq!(status, Status::Host(FuncAddr(0)));
    assert_eq!(machine.host_call(&store), Some((HostFunc(3), vec![Val::I32(2), Val::I32(3)])));
    machine.resume(&store, &vec![Val::I32(5)]).unwrap();
    assert_eq!(machine.execute(&mut store, 100), Status::Done);
    assert_eq!(machine.stack.items, vec![Val::I32(45)]);
    assert_eq!(machine.host_call(&store), None);
}

#[test]
fn the_host_offers_nothing_for_what_it_does_not_know() {
    let mut store = Store::new();
    let mut module = Module::new();
    module.types.push(functype(vec![], vec![]));
    module.imports.push(Import { module: "env".to_string(), nm: "f".to_string(), desc: ImportDesc::Func(TypeIdx(0)) });
    module.imports.push(Import { module: "env".to_string(), nm: "g".to_string(), desc: ImportDesc::Func(TypeIdx(9)) });
    module.imports.push(Import { module: "env".to_string(), nm: "m".to_string(), desc: ImportDesc::Mem(MemType { limits: Limits { min: 1, max: None } }) });
    module.imports.push(Import { module: "env".to_string(), nm: "h".to_string(), desc: ImportDesc::Func(TypeIdx(0)) });
    let names = vec![Name::new("env", "g"), Name::new("env", "m"), Name::new("env", "h")];
    let externals = host_table(&module, &mut store, &names);
    assert_eq!(externals.values.len(), 1);
    assert_eq!(externals.get_func(&Name::new("env", "h")), Some(FuncAddr(0)));
    assert!(matches!(store.funcs[0], FuncInst::External { func: HostFunc(2), .. }));
    assert_eq!(place_of(&names, &"env".to_string(), &"x".to_string()), None);
}

#[test]
fn a_call_that_cannot_begin_leaves_the_machine_alone() {
    let mut store = Store::new();
    let instance = install(one_function(vec![I32], vec![], vec![], vec![]), &mut store, &Externals::new()).unwrap();
    let func = store.modules[instance].func_addrs[0];
    let mut machine = Machine::new(4);
    machine.stack.push(Val::I64(1));
    assert_eq!(machine.begin_call(&store.funcs, &store.modules, func.0), Err(Error::WrongValType));
    assert_eq!(machine.stack.items, vec![Val::I64(1)]);
    assert_eq!(machine.status(), Status::Done);
    assert_eq!(machine.begin_call(&store.funcs, &store.modules, 9), Err(Error::FunctionNotFound));
    assert_eq!(machine.stack.items, vec![Val::I64(1)]);
}

#[test]
fn a_call_leaves_its_results_above_what_lay_below() {
    let body = vec![
        Inst::LocalGet(LocalIdx(0)),
        Inst::LocalGet(LocalIdx(1)),
        Inst::I32Binary(IntBinop::Add),
        Inst::I64Const(5),
        Inst::Drop,
    ];
    let mut store = Store::new();
    let instance = install(one_function(vec![I32, I32], vec![I32], vec![], body), &mut store, &Externals::new()).unwrap();
    let func = store.modules[instance].func_addrs[0];
    let mut machine = Machine::new(4);
    machine.stack.push(Val::I64(9));
    machine.stack.push(Val::I32(8));
    let status = machine.invoke(&mut store, func, &vec![Val::I32(2), Val::I32(3)], 100);
    assert_eq!(status, Status::Done);
    assert_eq!(machine.stack.items, vec![Val::I64(9), Val::I32(8), Val::I32(5)]);

    let both = vec![Inst::I32Const(1), Inst::I32Const(2), Inst::Return];
    let instance = install(one_function(vec![], vec![I32], vec![], both), &mut store, &Externals::new()).unwrap();
    let func = store.modules[instance].func_addrs[0];
    let status = machine.invoke(&mut store, func, &vec![], 100);
    assert_eq!(status, Status::Done);
    assert_eq!(machine.stack.items, vec![Val::I64(9), Val::I32(8), Val::I32(5), Val::I32(2)]);
}
