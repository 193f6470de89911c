//! The store, the instances that live in it, and instantiation.
use vstd::prelude::*;
pub use crate::linking::{instantiate, ExternVal, Externals, LinkError, Name};
use crate::repr::{
    Export, ExportDesc, Func, FuncIdx, FuncType, GlobalIdx, GlobalType, MemIdx, MemType, TableIdx,
    TableType, TypeIdx,
};
use crate::rt::{Error, Ref, Val};

verus! {

/// The number of bytes in a page of memory.
pub const WASM_PAGE_SIZE: usize = 65536;

/// The largest number of pages that a memory can have.
pub const MAX_PAGES: u32 = 65536;

#[derive(Debug, Copy, Clone, PartialEq, Eq, Structural)]
pub struct FuncAddr(pub usize);

#[derive(Debug, Copy, Clone, PartialEq, Eq, Structural)]
pub struct TableAddr(pub usize);

#[derive(Debug, Copy, Clone, PartialEq, Eq, Structural)]
pub struct MemAddr(pub usize);

#[derive(Debug, Copy, Clone, PartialEq, Eq, Structural)]
pub struct GlobalAddr(pub usize);

/// The embedder's name for one of its callables. The store keeps the name;
/// the embedder keeps the callable.
#[derive(Debug, Copy, Clone, PartialEq, Eq, Structural)]
pub struct HostFunc(pub usize);

/// A function instance: a function of a module instance, which is found by
/// the instance's address and the function's place among its definitions, or
/// a function of the host.
#[derive(Debug)]
pub enum FuncInst {
    Local { typ: FuncType, module: usize, code: usize },
    External { typ: FuncType, func: HostFunc },
}

impl FuncInst {
    pub open spec fn spec_typ(&self) -> FuncType {
        match self {
            FuncInst::Local { typ, .. } => *typ,
            FuncInst::External { typ, .. } => *typ,
        }
    }

    /// The type of the function.
    pub fn typ(&self) -> (t: &FuncType)
        ensures
            *t == self.spec_typ(),
    {
        match self {
            FuncInst::Local { typ, .. } => typ,
            FuncInst::External { typ, .. } => typ,
        }
    }
}

/// The number that `bytes` denote, least significant byte first.
pub open spec fn spec_le_decode(bytes: Seq<u8>) -> nat
    decreases bytes.len(),
{
    if bytes.len() == 0 {
        0
    } else {
        bytes[0] as nat + 256 * spec_le_decode(bytes.drop_first())
    }
}

/// The `n` least significant bytes of `x`, least significant first.
pub open spec fn spec_le_encode(x: nat, n: nat) -> Seq<u8>
    decreases n,
{
    if n == 0 {
        Seq::empty()
    } else {
        seq![(x % 256) as u8] + spec_le_encode(x / 256, (n - 1) as nat)
    }
}

/// 256 to the power `n`.
pub open spec fn spec_pow256(n: nat) -> nat
    decreases n,
{
    if n == 0 {
        1
    } else {
        256 * spec_pow256((n - 1) as nat)
    }
}

/// `n` bytes denote a number below 256 to the `n`.
pub proof fn lemma_le_decode_bound(bytes: Seq<u8>)
    ensures
        spec_le_decode(bytes) < spec_pow256(bytes.len()),
    decreases bytes.len(),
{
    if bytes.len() > 0 {
        lemma_le_decode_bound(bytes.drop_first());
    }
}

/// Encoding yields as many bytes as were asked for.
pub proof fn lemma_le_encode_len(x: nat, n: nat)
    ensures
        spec_le_encode(x, n).len() == n,
    decreases n,
{
    if n > 0 {
        lemma_le_encode_len(x / 256, (n - 1) as nat);
    }
}

/// Decoding what was encoded gives the number back, reduced modulo 256 to
/// the number of bytes.
pub proof fn lemma_le_round_trip(x: nat, n: nat)
    ensures
        spec_le_decode(spec_le_encode(x, n)) == x % spec_pow256(n),
    decreases n,
{
    if n > 0 {
        let rest = spec_le_encode(x / 256, (n - 1) as nat);
        let all = spec_le_encode(x, n);
        lemma_le_round_trip(x / 256, (n - 1) as nat);
        assert(all.drop_first() == rest);
        let p = spec_pow256((n - 1) as nat);
        lemma_pow256_positive((n - 1) as nat);
        vstd::arithmetic::div_mod::lemma_breakdown(x as int, 256, p as int);
        assert(256 * p == spec_pow256(n));
    }
}

pub proof fn lemma_pow256_positive(n: nat)
    ensures
        spec_pow256(n) > 0,
    decreases n,
{
    if n > 0 {
        lemma_pow256_positive((n - 1) as nat);
    }
}

/// Reads the number that the `count` bytes from `start` on denote, least
/// significant byte first.
pub(crate) fn le_read(bytes: &[u8], start: usize, count: usize) -> (r: u64)
    requires
        count <= 8,
        start + count <= bytes@.len(),
    ensures
        r == spec_le_decode(bytes@.subrange(start as int, start + count)),
        r < spec_pow256(count as nat),
{
    let ghost part = bytes@.subrange(start as int, start + count);
    let total: usize = bytes.len();
    let mut acc: u64 = 0;
    let mut i: usize = count;
    proof {
        assert(part.subrange(count as int, count as int) =~= Seq::<u8>::empty());
    }
    while i > 0
        invariant
            i <= count,
            count <= 8,
            start + count <= total == bytes@.len(),
            part == bytes@.subrange(start as int, start + count),
            acc == spec_le_decode(part.subrange(i as int, count as int)),
        decreases i,
    {
        proof {
            let tail = part.subrange(i - 1, count as int);
            assert(tail.drop_first() =~= part.subrange(i as int, count as int));
            lemma_le_decode_bound(tail.drop_first());
            reveal_with_fuel(spec_pow256, 9);
        }
        i = i - 1;
        acc = acc * 256 + bytes[start + i] as u64;
    }
    proof {
        assert(part.subrange(0, count as int) =~= part);
        lemma_le_decode_bound(part);
    }
    acc
}

/// What a memory holds: its bytes and its upper bound in pages, if it has
/// one.
pub struct MemView {
    pub data: Seq<u8>,
    pub max: Option<u32>,
}

impl MemView {
    /// The size in whole pages.
    pub open spec fn pages(self) -> int {
        self.data.len() as int / 65536
    }

    /// Whether an access of `n` bytes at `ea` lies within the memory.
    pub open spec fn in_bounds(self, ea: u64, n: u64) -> bool {
        ea + n <= self.data.len()
    }

    /// The number that the `n` bytes at `ea` denote; out of bounds, the trap.
    pub open spec fn spec_read(self, ea: u64, n: u64) -> Result<u64, Error> {
        if self.in_bounds(ea, n) {
            Ok(spec_le_decode(self.data.subrange(ea as int, ea + n)) as u64)
        } else {
            Err(Error::MemoryOutOfBounds { addr: ea, len: n })
        }
    }

    /// The memory after the `n` low bytes of `value` were written at `ea`;
    /// out of bounds, the trap.
    pub open spec fn spec_write(self, ea: u64, n: u64, value: u64) -> Result<MemView, Error> {
        if self.in_bounds(ea, n) {
            Ok(
                MemView {
                    data: self.data.subrange(0, ea as int) + spec_le_encode(value as nat, n as nat)
                        + self.data.subrange(ea + n, self.data.len() as int),
                    max: self.max,
                },
            )
        } else {
            Err(Error::MemoryOutOfBounds { addr: ea, len: n })
        }
    }

    /// The memory after `bytes` were copied to `at`; out of bounds, the trap.
    pub open spec fn spec_fill(self, at: u64, bytes: Seq<u8>) -> Result<MemView, Error> {
        if at + bytes.len() <= self.data.len() {
            Ok(
                MemView {
                    data: self.data.subrange(0, at as int) + bytes + self.data.subrange(
                        at + bytes.len(),
                        self.data.len() as int,
                    ),
                    max: self.max,
                },
            )
        } else {
            Err(Error::MemoryOutOfBounds { addr: at, len: bytes.len() as u64 })
        }
    }

    /// A memory as the store makes and keeps it: whole pages, no more than
    /// its bound allows, and no more bytes than can be addressed.
    pub open spec fn wf(self) -> bool {
        &&& self.data.len() % 65536 == 0
        &&& self.pages() <= self.limit()
        &&& self.data.len() <= usize::MAX
    }

    /// The most pages that the memory may have.
    pub open spec fn limit(self) -> int {
        match self.max {
            Some(m) => if m < MAX_PAGES { m as int } else { MAX_PAGES as int },
            None => MAX_PAGES as int,
        }
    }

    /// Whether the memory can grow by `delta` pages.
    pub open spec fn can_grow(self, delta: u32) -> bool {
        &&& self.pages() + delta <= self.limit()
        &&& self.data.len() + delta * 65536 <= usize::MAX
    }

    /// The memory after growing by `delta` pages of zeros.
    pub open spec fn spec_grow(self, delta: u32) -> MemView {
        MemView { data: self.data + Seq::new((delta * 65536) as nat, |i: int| 0u8), max: self.max }
    }
}

/// A memory instance.
#[derive(Debug)]
pub struct MemInstInner {
    pub data: Vec<u8>,
    pub max: Option<u32>,
}

impl View for MemInstInner {
    type V = MemView;

    open spec fn view(&self) -> MemView {
        MemView { data: self.data@, max: self.max }
    }
}

impl MemInstInner {
    /// A memory of `bytes` zero bytes without an upper bound.
    pub fn new(bytes: usize) -> (m: Self)
        ensures
            m@.data == Seq::new(bytes as nat, |i: int| 0u8),
            m@.max is None,
    {
        let mut data: Vec<u8> = Vec::new();
        data.resize(bytes, 0u8);
        assert(data@ =~= Seq::new(bytes as nat, |i: int| 0u8));
        Self { data, max: None }
    }

    pub fn len(&self) -> (n: usize)
        ensures
            n == self@.data.len(),
    {
        self.data.len()
    }

    /// Reads `n` bytes at `ea`, least significant byte first.
    pub fn read(&self, ea: u64, n: u64) -> (r: Result<u64, Error>)
        requires
            n <= 8,
        ensures
            r == self@.spec_read(ea, n),
            r is Ok ==> ea + n <= self@.data.len(),
            r matches Ok(v) ==> v < spec_pow256(n as nat),
    {
        let len: usize = self.data.len();
        if ea > u64::MAX - n || ea + n > len as u64 {
            return Err(Error::MemoryOutOfBounds { addr: ea, len: n });
        }
        Ok(le_read(self.data.as_slice(), ea as usize, n as usize))
    }

    /// Writes the `n` low bytes of `value` at `ea`, least significant byte
    /// first. Out of bounds nothing is written.
    pub fn write(&mut self, ea: u64, n: u64, value: u64) -> (r: Result<(), Error>)
        requires
            n <= 8,
        ensures
            match old(self)@.spec_write(ea, n, value) {
                Ok(m) => r is Ok && final(self)@ == m,
                Err(e) => r == Err::<(), Error>(e) && final(self)@ == old(self)@,
            },
            r is Ok ==> ea + n <= old(self)@.data.len(),
    {
        let len: usize = self.data.len();
        if ea > u64::MAX - n || ea + n > len as u64 {
            return Err(Error::MemoryOutOfBounds { addr: ea, len: n });
        }
        let start: usize = ea as usize;
        let count: usize = n as usize;
        let mut rest: u64 = value;
        let mut i: usize = 0;
        let ghost before = self.data@;
        while i < count
            invariant
                i <= count,
                count <= 8,
                start + count <= before.len() <= usize::MAX,
                self.max == old(self).max,
                self.data@.len() == before.len(),
                self.data@ =~= before.subrange(0, start as int) + spec_le_encode(
                    value as nat,
                    i as nat,
                ) + before.subrange(start + i, before.len() as int),
                spec_le_encode(value as nat, count as nat) =~= spec_le_encode(value as nat, i as nat)
                    + spec_le_encode(rest as nat, (count - i) as nat),
            decreases count - i,
        {
            proof {
                lemma_le_encode_len(value as nat, i as nat);
                lemma_le_encode_len(value as nat, (i + 1) as nat);
                lemma_le_encode_step(value as nat, i as nat, rest as nat, (count - i) as nat);
            }
            self.data[start + i] = (rest % 256) as u8;
            rest = rest / 256;
            i = i + 1;
        }
        proof {
            assert(spec_le_encode(rest as nat, 0) =~= Seq::<u8>::empty());
        }
        Ok(())
    }

    /// Copies `bytes` to `at`. Out of bounds nothing is copied.
    pub fn fill(&mut self, at: u64, bytes: &Vec<u8>) -> (r: Result<(), Error>)
        ensures
            match old(self)@.spec_fill(at, bytes@) {
                Ok(m) => r is Ok && final(self)@ == m,
                Err(e) => r == Err::<(), Error>(e) && final(self)@ == old(self)@,
            },
    {
        let len: usize = self.data.len();
        let count: usize = bytes.len();
        if at > len as u64 || count > len - at as usize {
            return Err(Error::MemoryOutOfBounds { addr: at, len: count as u64 });
        }
        let start: usize = at as usize;
        let mut i: usize = 0;
        let ghost before = self.data@;
        while i < count
            invariant
                i <= count,
                count == bytes@.len(),
                start + count <= before.len() <= usize::MAX,
                self.max == old(self).max,
                self.data@.len() == before.len(),
                self.data@ =~= before.subrange(0, start as int) + bytes@.take(i as int)
                    + before.subrange(start + i, before.len() as int),
            decreases count - i,
        {
            self.data[start + i] = bytes[i];
            i = i + 1;
        }
        proof {
            assert(bytes@.take(count as int) =~= bytes@);
        }
        Ok(())
    }

    /// The size in pages.
    pub fn pages(&self) -> (p: usize)
        ensures
            p == self@.pages(),
    {
        self.data.len() / WASM_PAGE_SIZE
    }

    /// Grows the memory by `delta` pages of zeros and returns the size before
    /// in pages; where the bound forbids it, nothing changes.
    pub fn grow(&mut self, delta: u32) -> (r: Option<usize>)
        ensures
            old(self)@.can_grow(delta) ==> r == Some(old(self)@.pages() as usize) && final(self)@
                == old(self)@.spec_grow(delta),
            !old(self)@.can_grow(delta) ==> r is None && final(self)@ == old(self)@,
            old(self)@.wf() ==> final(self)@.wf(),
    {
        let pages: usize = self.pages();
        let cap: u32 = match self.max {
            Some(m) => if m < MAX_PAGES { m } else { MAX_PAGES },
            None => MAX_PAGES,
        };
        if pages > cap as usize || delta as usize > cap as usize - pages {
            return None;
        }
        let len: usize = self.data.len();
        let extra: u64 = delta as u64 * 65536;
        if extra > (usize::MAX - len) as u64 {
            return None;
        }
        let ghost before = self.data@;
        self.data.resize(len + extra as usize, 0u8);
        assert(self.data@ =~= before + Seq::new((delta * 65536) as nat, |i: int| 0u8));
        Some(pages)
    }
}

/// One more byte of an encoding: the first `i + 1` bytes are the first `i`
/// and the low byte of what is left.
pub proof fn lemma_le_encode_step(x: nat, i: nat, rest: nat, left: nat)
    requires
        left > 0,
        spec_le_encode(x, i + left) =~= spec_le_encode(x, i) + spec_le_encode(rest, left),
    ensures
        spec_le_encode(x, i + 1) =~= spec_le_encode(x, i).push((rest % 256) as u8),
        spec_le_encode(x, i + left) =~= spec_le_encode(x, i + 1) + spec_le_encode(
            rest / 256,
            (left - 1) as nat,
        ),
    decreases i,
{
    lemma_le_encode_len(x, i);
    lemma_le_encode_len(x, i + 1);
    lemma_le_encode_len(x, i + left);
    lemma_le_encode_len(rest, left);
    lemma_le_encode_prefix(x, i + 1, i + left);
    let whole = spec_le_encode(x, i + left);
    let head = spec_le_encode(x, i);
    let tail = spec_le_encode(rest, left);
    assert(whole[i as int] == tail[0]);
    assert(tail[0] == (rest % 256) as u8);
    assert(tail.drop_first() =~= spec_le_encode(rest / 256, (left - 1) as nat));
    assert(spec_le_encode(x, i + 1) =~= whole.take((i + 1) as int));
    assert(head =~= whole.take(i as int));
}

/// A shorter encoding of a number is a prefix of a longer one.
pub proof fn lemma_le_encode_prefix(x: nat, n: nat, m: nat)
    requires
        n <= m,
    ensures
        spec_le_encode(x, n) =~= spec_le_encode(x, m).take(n as int),
    decreases n,
{
    lemma_le_encode_len(x, n);
    lemma_le_encode_len(x, m);
    if n > 0 {
        lemma_le_encode_prefix(x / 256, (n - 1) as nat, (m - 1) as nat);
        lemma_le_encode_len(x / 256, (n - 1) as nat);
        lemma_le_encode_len(x / 256, (m - 1) as nat);
    }
}

/// A table instance: its type and its slots.
#[derive(Debug)]
pub struct TableInstInner {
    pub typ: TableType,
    pub elem: Vec<Ref>,
}

/// A global instance: its type and its present value.
#[derive(Debug, Copy, Clone, PartialEq, Eq, Structural)]
pub struct GlobalInst {
    pub typ: GlobalType,
    pub value: Val,
}

/// A module instance: the module's function types, the code of its own
/// functions, and for each index space the store address of each index.
#[derive(Debug)]
pub struct ModuleInst {
    pub types: Vec<FuncType>,
    pub funcs: Vec<Func>,
    pub func_addrs: Vec<FuncAddr>,
    pub mem_addrs: Vec<MemAddr>,
    pub table_addrs: Vec<TableAddr>,
    pub global_addrs: Vec<GlobalAddr>,
    pub exports: Vec<Export>,
    pub start: Option<FuncIdx>,
}

impl ModuleInst {
    pub fn func_addr(&self, idx: FuncIdx) -> (r: Option<FuncAddr>)
        ensures
            r == if idx.0 < self.func_addrs@.len() {
                Some(self.func_addrs@[idx.0 as int])
            } else {
                None
            },
    {
        if (idx.0 as usize) < self.func_addrs.len() {
            Some(self.func_addrs[idx.0 as usize])
        } else {
            None
        }
    }

    pub fn table_addr(&self, idx: TableIdx) -> (r: Option<TableAddr>)
        ensures
            r == if idx.0 < self.table_addrs@.len() {
                Some(self.table_addrs@[idx.0 as int])
            } else {
                None
            },
    {
        if (idx.0 as usize) < self.table_addrs.len() {
            Some(self.table_addrs[idx.0 as usize])
        } else {
            None
        }
    }

    pub fn mem_addr(&self, idx: MemIdx) -> (r: Option<MemAddr>)
        ensures
            r == if idx.0 < self.mem_addrs@.len() {
                Some(self.mem_addrs@[idx.0 as int])
            } else {
                None
            },
    {
        if (idx.0 as usize) < self.mem_addrs.len() {
            Some(self.mem_addrs[idx.0 as usize])
        } else {
            None
        }
    }

    pub fn global_addr(&self, idx: GlobalIdx) -> (r: Option<GlobalAddr>)
        ensures
            r == if idx.0 < self.global_addrs@.len() {
                Some(self.global_addrs@[idx.0 as int])
            } else {
                None
            },
    {
        if (idx.0 as usize) < self.global_addrs.len() {
            Some(self.global_addrs[idx.0 as usize])
        } else {
            None
        }
    }

    pub fn typ(&self, idx: TypeIdx) -> (r: Option<&FuncType>)
        ensures
            r == if idx.0 < self.types@.len() {
                Some(&self.types@[idx.0 as int])
            } else {
                None
            },
    {
        if (idx.0 as usize) < self.types.len() {
            Some(&self.types[idx.0 as usize])
        } else {
            None
        }
    }

    /// The address of the first exported function named `name` at or after
    /// export `from`, if there is one.
    pub open spec fn spec_export_func(&self, name: Seq<char>, from: int) -> Option<FuncAddr>
        decreases self.exports@.len() - from,
    {
        if from < 0 || from >= self.exports@.len() {
            None
        } else {
            let e = self.exports@[from];
            if e.name@ == name && e.desc is Func && e.desc->Func_0.0 < self.func_addrs@.len() {
                Some(self.func_addrs@[e.desc->Func_0.0 as int])
            } else {
                self.spec_export_func(name, from + 1)
            }
        }
    }

    /// Looks a function up by the name under which the module exports it.
    pub fn export_func(&self, name: &String) -> (r: Option<FuncAddr>)
        ensures
            r == self.spec_export_func(name@, 0),
    {
        let mut i: usize = 0;
        while i < self.exports.len()
            invariant
                i <= self.exports@.len(),
                self.spec_export_func(name@, 0) == self.spec_export_func(name@, i as int),
            decreases self.exports@.len() - i,
        {
            let e = &self.exports[i];
            if e.name == *name {
                if let ExportDesc::Func(idx) = e.desc {
                    if (idx.0 as usize) < self.func_addrs.len() {
                        return Some(self.func_addrs[idx.0 as usize]);
                    }
                }
            }
            i = i + 1;
        }
        None
    }
}

/// The views of the memories of a store.
pub open spec fn mems_view(mems: Seq<MemInstInner>) -> Seq<MemView> {
    Seq::new(mems.len(), |i: int| mems[i]@)
}

/// What a store holds. Functions, module instances and tables stand for
/// themselves; a memory is seen as its bytes and its bound.
pub struct StoreView {
    pub funcs: Seq<FuncInst>,
    pub modules: Seq<ModuleInst>,
    pub tables: Seq<TableInstInner>,
    pub mems: Seq<MemView>,
    pub globals: Seq<GlobalInst>,
}

/// The store: every function, table, memory, global and module instance of
/// an embedding session. An address is an index into one of its vectors;
/// nothing is ever moved or removed.
#[derive(Debug)]
pub struct Store {
    pub funcs: Vec<FuncInst>,
    pub mems: Vec<MemInstInner>,
    pub tables: Vec<TableInstInner>,
    pub globals: Vec<GlobalInst>,
    pub modules: Vec<ModuleInst>,
}

impl View for Store {
    type V = StoreView;

    open spec fn view(&self) -> StoreView {
        StoreView {
            funcs: self.funcs@,
            modules: self.modules@,
            tables: self.tables@,
            mems: mems_view(self.mems@),
            globals: self.globals@,
        }
    }
}

impl Store {
    /// The empty store.
    pub fn new() -> (s: Store)
        ensures
            s@.funcs.len() == 0,
            s@.modules.len() == 0,
            s@.tables.len() == 0,
            s@.mems.len() == 0,
            s@.globals.len() == 0,
    {
        Store {
            funcs: Vec::new(),
            mems: Vec::new(),
            tables: Vec::new(),
            globals: Vec::new(),
            modules: Vec::new(),
        }
    }

    /// Appends a function of module instance `module`, the one with index
    /// `code` among its own definitions, and returns its address.
    pub fn allocfunc(&mut self, typ: FuncType, module: usize, code: usize) -> (a: FuncAddr)
        ensures
            a.0 == old(self)@.funcs.len(),
            final(self)@ == (StoreView {
                funcs: old(self)@.funcs.push(FuncInst::Local { typ, module, code }),
                ..old(self)@
            }),
    {
        let addr = self.funcs.len();
        self.funcs.push(FuncInst::Local { typ, module, code });
        FuncAddr(addr)
    }

    /// Appends a function of the host and returns its address.
    pub fn allochostfunc(&mut self, functype: FuncType, hostfunc: HostFunc) -> (a: FuncAddr)
        ensures
            a.0 == old(self)@.funcs.len(),
            final(self)@ == (StoreView {
                funcs: old(self)@.funcs.push(FuncInst::External { typ: functype, func: hostfunc }),
                ..old(self)@
            }),
    {
        let addr = self.funcs.len();
        self.funcs.push(FuncInst::External { typ: functype, func: hostfunc });
        FuncAddr(addr)
    }

    /// Whether a memory of this type can be allocated: its lower bound is a
    /// legal size and within its own upper bound, and that many bytes can
    /// be addressed.
    pub open spec fn spec_mem_fits(memtype: MemType) -> bool {
        &&& memtype.limits.min <= MAX_PAGES
        &&& memtype.limits.min * 65536 <= usize::MAX
        &&& memtype.limits.max matches Some(m) ==> memtype.limits.min <= m
    }

    pub fn mem_fits(memtype: MemType) -> (r: bool)
        ensures
            r == Self::spec_mem_fits(memtype),
    {
        if memtype.limits.min > MAX_PAGES {
            return false;
        }
        if memtype.limits.min as u64 * 65536 > usize::MAX as u64 {
            return false;
        }
        match memtype.limits.max {
            Some(m) => memtype.limits.min <= m,
            None => true,
        }
    }

    /// The memory that `allocmem` makes for a type: the lower bound in pages
    /// of zero bytes.
    pub open spec fn spec_fresh_mem(memtype: MemType) -> MemView {
        MemView {
            data: Seq::new((memtype.limits.min * 65536) as nat, |i: int| 0u8),
            max: memtype.limits.max,
        }
    }

    /// Appends a zeroed memory of the type's lower bound and returns its
    /// address. Where no such memory can be allocated, the store is
    /// unchanged.
    pub fn allocmem(&mut self, memtype: MemType) -> (r: Option<MemAddr>)
        ensures
            Self::spec_mem_fits(memtype) ==> r == Some(MemAddr(old(self)@.mems.len() as usize))
                && final(self)@ == (StoreView {
                mems: old(self)@.mems.push(Self::spec_fresh_mem(memtype)),
                ..old(self)@
            }) && Self::spec_fresh_mem(memtype).wf(),
            !Self::spec_mem_fits(memtype) ==> r is None && final(self)@ == old(self)@,
    {
        if !Self::mem_fits(memtype) {
            return None;
        }
        let addr = self.mems.len();
        let mut mem = MemInstInner::new((memtype.limits.min as u64 * 65536) as usize);
        mem.max = memtype.limits.max;
        assert(mem@ == Self::spec_fresh_mem(memtype));
        self.mems.push(mem);
        assert(mems_view(self.mems@) =~= mems_view(old(self).mems@).push(
            Self::spec_fresh_mem(memtype),
        ));
        Some(MemAddr(addr))
    }

    /// Appends a table of the type's lower bound, every slot `init`, and
    /// returns its address.
    pub fn alloctable(&mut self, tabletype: TableType, init: Ref) -> (a: TableAddr)
        ensures
            a.0 == old(self)@.tables.len(),
            final(self)@.tables.len() == old(self)@.tables.len() + 1,
            final(self)@.tables.drop_last() == old(self)@.tables,
            final(self)@.tables.last().typ == tabletype,
            final(self)@.tables.last().elem@ == Seq::new(tabletype.limits.min as nat, |i: int| init),
            final(self)@ == (StoreView { tables: final(self)@.tables, ..old(self)@ }),
    {
        let addr = self.tables.len();
        let mut elem: Vec<Ref> = Vec::new();
        elem.resize(tabletype.limits.min as usize, init);
        assert(elem@ =~= Seq::new(tabletype.limits.min as nat, |i: int| init));
        self.tables.push(TableInstInner { typ: tabletype, elem });
        assert(self.tables@.drop_last() =~= old(self).tables@);
        TableAddr(addr)
    }

    /// Appends a global with its first value and returns its address.
    pub fn allocglobal(&mut self, typ: GlobalType, value: Val) -> (a: GlobalAddr)
        ensures
            a.0 == old(self)@.globals.len(),
            final(self)@ == (StoreView {
                globals: old(self)@.globals.push(GlobalInst { typ, value }),
                ..old(self)@
            }),
    {
        let addr = self.globals.len();
        self.globals.push(GlobalInst { typ, value });
        GlobalAddr(addr)
    }
}

} // verus!
