use wasm::instance::{
    instantiate, ExternVal, Externals, FuncAddr, HostFunc, LinkError, Name, Store,
};
use wasm::repr::{
    BlockType, Data, Datamode, Elem, ElemMode, Export, ExportDesc, Expr, Func, FuncIdx, FuncType,
    Import, ImportDesc, Inst, IntBinop, IntRelop, LabelIdx, Limits, LoadOp, LocalIdx, Locals,
    MemArg, MemIdx, MemType, Module, Reftype, ResultType, StoreOp, TableIdx, TableType, TypeIdx,
    ValType,
};
use wasm::rt::{Error, Machine, Status, Val};

/// Instantiates a module whose start function, if it has one, ends within
/// a thousand steps.
fn install(module: Module, store: &mut Store, externals: &Externals) -> Result<usize, LinkError> {
    instantiate(module, store, externals, &mut Machine::new(16), 1000).map(|r| r.0)
}

fn functype(from: Vec<ValType>, to: Vec<ValType>) -> FuncType {
    FuncType { from: ResultType { types: from }, to: ResultType { types: to } }
}

fn export(name: &str, index: u32) -> Export {
    Export { name: name.to_string(), desc: ExportDesc::Func(FuncIdx(index)) }
}

fn lookup(store: &Store, instance: usize, name: &str) -> FuncAddr {
    store.modules[instance].export_func(&name.to_string()).expect("the export exists")
}

fn run(store: &mut Store, func: FuncAddr, args: Vec<Val>) -> (Status, Vec<Val>) {
    let mut machine = Machine::new(64);
    let status = machine.invoke(store, func, &args, 100_000);
    (status, machine.stack.items)
}

fn binary_module(op: IntBinop) -> Module {
    let mut module = Module::new();
    module.types.push(functype(vec![ValType::I32, ValType::I32], vec![ValType::I32]));
    module.funcs.push(Func {
        typ: TypeIdx(0),
        locals: vec![],
        body: vec![
            Inst::LocalGet(LocalIdx(0)),
            Inst::LocalGet(LocalIdx(1)),
            Inst::I32Binary(op),
        ],
    });
    module.exports.push(export("op", 0));
    module
}

#[test]
fn add_two_numbers() {
    let mut store = Store::new();
    let instance = install(binary_module(IntBinop::Add), &mut store, &Externals::new()).unwrap();
    let add = lookup(&store, instance, "op");
    assert_eq!(
        run(&mut store, add, vec![Val::I32(2), Val::I32(3)]),
        (Status::Done, vec![Val::I32(5)])
    );
    assert_eq!(
        run(&mut store, add, vec![Val::I32(0x7FFF_FFFF), Val::I32(1)]),
        (Status::Done, vec![Val::I32(0x8000_0000u32 as i32)])
    );
}

#[test]
fn loop_counts_to_ten() {
    let mut module = Module::new();
    module.types.push(functype(vec![], vec![ValType::I32]));
    let body = vec![
        Inst::LocalGet(LocalIdx(0)),
        Inst::I32Const(1),
        Inst::I32Binary(IntBinop::Add),
        Inst::LocalTee(LocalIdx(0)),
        Inst::I32Const(10),
        Inst::I32Compare(IntRelop::LtS),
        Inst::BreakIf(LabelIdx(0)),
    ];
    module.funcs.push(Func {
        typ: TypeIdx(0),
        locals: vec![Locals { n: 1, t: ValType::I32 }],
        body: vec![
            Inst::Loop(BlockType::Empty, Expr { instructions: body }),
            Inst::LocalGet(LocalIdx(0)),
        ],
    });
    module.exports.push(export("count", 0));
    let mut store = Store::new();
    let instance = install(module, &mut store, &Externals::new()).unwrap();
    let count = lookup(&store, instance, "count");
    assert_eq!(run(&mut store, count, vec![]), (Status::Done, vec![Val::I32(10)]));
}

#[test]
fn division_traps() {
    let mut store = Store::new();
    let instance = install(binary_module(IntBinop::DivS), &mut store, &Externals::new()).unwrap();
    let div = lookup(&store, instance, "op");
    assert_eq!(
        run(&mut store, div, vec![Val::I32(1), Val::I32(0)]),
        (Status::Trapped(Error::IntegerDivideByZero), vec![])
    );
    assert_eq!(
        run(&mut store, div, vec![Val::I32(i32::MIN), Val::I32(-1)]),
        (Status::Trapped(Error::IntegerOverflow), vec![])
    );
    assert_eq!(
        run(&mut store, div, vec![Val::I32(-7), Val::I32(2)]),
        (Status::Done, vec![Val::I32(-3)])
    );
}

fn memory_module() -> Module {
    let mut module = Module::new();
    module.types.push(functype(vec![ValType::I32], vec![ValType::I32]));
    module.mems.push(MemType { limits: Limits { min: 1, max: None } });
    let arg = MemArg { align: 2, offset: 0 };
    module.funcs.push(Func {
        typ: TypeIdx(0),
        locals: vec![],
        body: vec![
            Inst::LocalGet(LocalIdx(0)),
            Inst::I32Const(0xDEAD_BEEFu32 as i32),
            Inst::Store(StoreOp::I32Store, arg),
            Inst::LocalGet(LocalIdx(0)),
            Inst::Load(LoadOp::I32Load, arg),
        ],
    });
    module.exports.push(export("store_load", 0));
    module
}

#[test]
fn memory_store_then_load() {
    let mut store = Store::new();
    let instance = install(memory_module(), &mut store, &Externals::new()).unwrap();
    let f = lookup(&store, instance, "store_load");
    assert_eq!(
        run(&mut store, f, vec![Val::I32(16)]),
        (Status::Done, vec![Val::I32(0xDEAD_BEEFu32 as i32)])
    );
    assert_eq!(&store.mems[0].data[16..20], &[0xEF, 0xBE, 0xAD, 0xDE]);
    assert_eq!(
        run(&mut store, f, vec![Val::I32(65533)]),
        (Status::Trapped(Error::MemoryOutOfBounds { addr: 65533, len: 4 }), vec![])
    );
    assert_eq!(
        run(&mut store, f, vec![Val::I32(65532)]),
        (Status::Done, vec![Val::I32(0xDEAD_BEEFu32 as i32)])
    );
}

fn constant_function(value: i32) -> Func {
    Func { typ: TypeIdx(0), locals: vec![], body: vec![Inst::I32Const(value)] }
}

#[test]
fn indirect_call_through_table() {
    let mut module = Module::new();
    module.types.push(functype(vec![], vec![ValType::I32]));
    module.types.push(functype(vec![ValType::I32], vec![ValType::I32]));
    module.tables.push(TableType { reftype: Reftype::Funcref, limits: Limits { min: 2, max: None } });
    module.funcs.push(constant_function(7));
    module.funcs.push(constant_function(9));
    module.funcs.push(Func {
        typ: TypeIdx(1),
        locals: vec![],
        body: vec![Inst::LocalGet(LocalIdx(0)), Inst::CallIndirect(TypeIdx(0), TableIdx(0))],
    });
    module.elems.push(Elem {
        typ: Reftype::Funcref,
        init: vec![FuncIdx(0), FuncIdx(1)],
        mode: ElemMode::Active { table: TableIdx(0), offset: vec![Inst::I32Const(0)] },
    });
    module.exports.push(export("pick", 2));
    let mut store = Store::new();
    let instance = install(module, &mut store, &Externals::new()).unwrap();
    let pick = lookup(&store, instance, "pick");
    assert_eq!(run(&mut store, pick, vec![Val::I32(0)]), (Status::Done, vec![Val::I32(7)]));
    assert_eq!(run(&mut store, pick, vec![Val::I32(1)]), (Status::Done, vec![Val::I32(9)]));
    assert_eq!(
        run(&mut store, pick, vec![Val::I32(2)]),
        (Status::Trapped(Error::TableOutOfBounds), vec![])
    );
}

#[test]
fn indirect_call_checks_slot_and_type() {
    let mut module = Module::new();
    module.types.push(functype(vec![], vec![ValType::I32]));
    module.types.push(functype(vec![ValType::I32], vec![ValType::I32]));
    module.tables.push(TableType { reftype: Reftype::Funcref, limits: Limits { min: 2, max: None } });
    module.funcs.push(constant_function(7));
    module.funcs.push(Func {
        typ: TypeIdx(1),
        locals: vec![],
        body: vec![Inst::LocalGet(LocalIdx(0)), Inst::CallIndirect(TypeIdx(1), TableIdx(0))],
    });
    module.elems.push(Elem {
        typ: Reftype::Funcref,
        init: vec![FuncIdx(0)],
        mode: ElemMode::Active { table: TableIdx(0), offset: vec![Inst::I32Const(0)] },
    });
    module.exports.push(export("pick", 1));
    let mut store = Store::new();
    let instance = install(module, &mut store, &Externals::new()).unwrap();
    let pick = lookup(&store, instance, "pick");
    let mut machine = Machine::new(8);
    machine.stack.push(Val::I32(5));
    assert_eq!(
        machine.invoke(&mut store, pick, &vec![Val::I32(0)], 100),
        Status::Trapped(Error::IndirectCallTypeMismatch)
    );
    assert_eq!(
        run(&mut store, pick, vec![Val::I32(1)]),
        (Status::Trapped(Error::UninitializedElement), vec![])
    );
}

#[test]
fn host_import_is_asked_and_answered() {
    let mut store = Store::new();
    let host = store.allochostfunc(
        functype(vec![ValType::I32, ValType::I32], vec![ValType::I32]),
        HostFunc(0),
    );
    let mut externals = Externals::new();
    externals.insert(Name::new("env", "add"), ExternVal::ExternalFunc(host));

    let mut module = Module::new();
    module.types.push(functype(vec![ValType::I32, ValType::I32], vec![ValType::I32]));
    module.imports.push(Import {
        module: "env".to_string(),
        nm: "add".to_string(),
        desc: ImportDesc::Func(TypeIdx(0)),
    });
    module.funcs.push(Func {
        typ: TypeIdx(0),
        locals: vec![],
        body: vec![
            Inst::LocalGet(LocalIdx(0)),
            Inst::LocalGet(LocalIdx(1)),
            Inst::Call(FuncIdx(0)),
        ],
    });
    module.exports.push(export("wrapper", 1));
    let instance = install(module, &mut store, &externals).unwrap();
    let wrapper = lookup(&store, instance, "wrapper");

    let mut machine = Machine::new(8);
    let status = machine.invoke(&mut store, wrapper, &vec![Val::I32(2), Val::I32(3)], 1000);
    assert_eq!(status, Status::Host(host));
    let args = machine.stack.items.clone();
    assert_eq!(args, vec![Val::I32(2), Val::I32(3)]);
    let (Val::I32(a), Val::I32(b)) = (args[0], args[1]) else { panic!("two numbers") };
    machine.resume(&store, &vec![Val::I32(a + b + 1)]).unwrap();
    assert_eq!(machine.execute(&mut store, 1000), Status::Done);
    assert_eq!(machine.stack.items, vec![Val::I32(6)]);
}

#[test]
fn missing_import_leaves_the_store_alone() {
    let mut store = Store::new();
    let mut module = Module::new();
    module.types.push(functype(vec![], vec![]));
    module.mems.push(MemType { limits: Limits { min: 1, max: None } });
    module.imports.push(Import {
        module: "env".to_string(),
        nm: "none".to_string(),
        desc: ImportDesc::Func(TypeIdx(0)),
    });
    assert_eq!(install(module, &mut store, &Externals::new()), Err(LinkError::UnknownImport));
    assert!(store.funcs.is_empty() && store.mems.is_empty() && store.modules.is_empty());
}

#[test]
fn import_of_another_type_is_refused() {
    let mut store = Store::new();
    let host = store.allochostfunc(functype(vec![ValType::I32], vec![]), HostFunc(0));
    let mut externals = Externals::new();
    externals.insert(Name::new("env", "f"), ExternVal::ExternalFunc(host));
    let mut module = Module::new();
    module.types.push(functype(vec![], vec![]));
    module.imports.push(Import {
        module: "env".to_string(),
        nm: "f".to_string(),
        desc: ImportDesc::Func(TypeIdx(0)),
    });
    assert_eq!(install(module, &mut store, &externals), Err(LinkError::ImportTypeMismatch));
    assert_eq!(store.funcs.len(), 1);
}

#[test]
fn data_segment_one_past_the_end_traps() {
    let mut store = Store::new();
    let mut module = memory_module();
    module.datas.push(Data {
        init: vec![1, 2, 3, 4],
        mode: Datamode::Active { memory: MemIdx(0), offset: vec![Inst::I32Const(0)] },
    });
    module.datas.push(Data {
        init: vec![9, 9],
        mode: Datamode::Active { memory: MemIdx(0), offset: vec![Inst::I32Const(65535)] },
    });
    assert_eq!(
        install(module, &mut store, &Externals::new()),
        Err(LinkError::Trap(Error::MemoryOutOfBounds { addr: 65535, len: 2 }))
    );
    assert!(store.funcs.is_empty() && store.mems.is_empty() && store.modules.is_empty());

    let mut module = memory_module();
    module.datas.push(Data {
        init: vec![9, 8],
        mode: Datamode::Active { memory: MemIdx(0), offset: vec![Inst::I32Const(65534)] },
    });
    install(module, &mut store, &Externals::new()).unwrap();
    assert_eq!(&store.mems[0].data[65534..], &[9, 8]);
}
