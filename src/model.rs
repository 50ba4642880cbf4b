use vstd::prelude::*;

verus! {

/// The four numeric value types.
#[derive(Clone, Copy, Debug, PartialEq, Eq, Structural)]
pub enum ValueType {
    I32,
    I64,
    F32,
    F64,
}

/// A function signature.
#[derive(Clone, Debug)]
pub struct FuncType {
    pub params: Vec<ValueType>,
    pub results: Vec<ValueType>,
}

/// A function imported from the host.
#[derive(Clone, Debug)]
pub struct FuncImportInfo {
    pub module: Vec<u8>,
    pub field: Vec<u8>,
    pub type_id: u32,
    pub name: Option<Vec<u8>>,
}

/// A run of locals of one type.
#[derive(Clone, Copy, Debug, PartialEq, Eq, Structural)]
pub struct LocalInfo {
    pub count: u32,
    pub ty: ValueType,
}

/// An initial size and an optional maximum.
#[derive(Clone, Copy, Debug, PartialEq, Eq, Structural)]
pub struct Limits {
    pub initial: u32,
    pub maximum: Option<u32>,
}

/// A table declaration.
#[derive(Clone, Copy, Debug, PartialEq, Eq, Structural)]
pub struct TableInfo {
    pub limits: Limits,
}

/// A linear memory declaration.
#[derive(Clone, Copy, Debug, PartialEq, Eq, Structural)]
pub struct MemoryInfo {
    pub limits: Limits,
}

/// What an import other than a function brings in.
#[derive(Clone, Copy, Debug, PartialEq, Eq, Structural)]
pub enum ImportDesc {
    Table(TableInfo),
    Memory(MemoryInfo),
    Global { ty: ValueType, mutable: bool },
}

/// An import of a table, a memory or a global.
#[derive(Clone, Debug)]
pub struct OtherImport {
    pub module: Vec<u8>,
    pub field: Vec<u8>,
    pub desc: ImportDesc,
}

/// One instruction of a function body.
#[derive(Clone, Debug)]
pub enum Operator {
    /// An instruction without immediates.
    Simple { opcode: u8 },
    /// `block`, `loop` or `if` with its block type byte.
    Block { opcode: u8, block_type: u8 },
    /// An instruction with one index immediate (branch depth, function,
    /// local or global index).
    Index { opcode: u8, index: u32 },
    BrTable { targets: Vec<u32>, default: u32 },
    CallIndirect { type_index: u32 },
    /// A load or a store with its alignment and offset.
    Memory { opcode: u8, align: u32, offset: u32 },
    I32Const(i32),
    I64Const(i64),
    /// An instruction kept as its opcode and the raw bytes of its immediate.
    Opaque { opcode: u8, immediate: Vec<u8> },
}

/// A function defined in the module.
#[derive(Clone, Debug)]
pub struct FuncInfo {
    pub type_id: u32,
    pub locals: Vec<LocalInfo>,
    pub code: Vec<Operator>,
    pub name: Option<Vec<u8>>,
}

/// Everything the decoder keeps of a module.
#[derive(Clone, Debug)]
pub struct ModuleInfo {
    pub types: Vec<FuncType>,
    pub func_imports: Vec<FuncImportInfo>,
    pub other_imports: Vec<OtherImport>,
    pub functions: Vec<FuncInfo>,
    pub tables: Vec<TableInfo>,
    pub memories: Vec<MemoryInfo>,
    pub start_func: Option<u32>,
}

impl ModuleInfo {
    /// Size of the function index space: imports first, then local functions.
    pub open spec fn num_funcs(&self) -> int {
        (self.func_imports@.len() + self.functions@.len()) as int
    }

    /// The module's structural invariants: every type index is in range, no
    /// signature returns more than one value, and the start function exists.
    pub open spec fn wf(&self) -> bool {
        &&& forall|i: int| 0 <= i < self.func_imports@.len() ==> (#[trigger] self.func_imports@[i]).type_id < self.types@.len()
        &&& forall|i: int| 0 <= i < self.functions@.len() ==> (#[trigger] self.functions@[i]).type_id < self.types@.len()
        &&& forall|i: int| 0 <= i < self.types@.len() ==> (#[trigger] self.types@[i]).results@.len() <= 1
        &&& (self.start_func matches Some(s) ==> s < self.num_funcs())
    }

    /// The module before any section has been read.
    pub open spec fn is_empty(&self) -> bool {
        &&& self.types@.len() == 0
        &&& self.func_imports@.len() == 0
        &&& self.other_imports@.len() == 0
        &&& self.functions@.len() == 0
        &&& self.tables@.len() == 0
        &&& self.memories@.len() == 0
        &&& self.start_func is None
    }

    /// Creates a module with no declarations.
    pub fn new() -> (r: ModuleInfo)
        ensures
            r.is_empty(),
            r.wf(),
    {
        ModuleInfo {
            types: Vec::new(),
            func_imports: Vec::new(),
            other_imports: Vec::new(),
            functions: Vec::new(),
            tables: Vec::new(),
            memories: Vec::new(),
            start_func: None,
        }
    }
}

} // verus!
