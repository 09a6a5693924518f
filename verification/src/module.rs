//! The validated, in-memory form of a binary guest module: function
//! signatures, function bodies, the export table and the memory limits.
//! A `Module` is immutable once parsed and is shared read-only by every
//! call that dispatches into it.

use vstd::prelude::*;

verus! {

/// Size of one linear-memory page, in bytes.
pub const PAGE_SIZE: u32 = 65536;

/// Ceiling on the page count any module may declare: no guest memory can
/// ever grow beyond this many pages.
pub const MAX_PAGES: u32 = 1024;

/// How many host functions the host function table exposes.
pub const HOST_FUNC_COUNT: u32 = 2;

/// Host function index: request linear-memory growth.
pub const HOST_GROW: u32 = 0;

/// Host function index: abort with a message held in guest memory.
pub const HOST_ABORT: u32 = 1;

/// One bytecode instruction of the guest instruction set: the subset
/// needed to run compiled guest modules of this shape.  All values are
/// 64-bit; arithmetic wraps.  Branch targets are absolute instruction
/// indices; a target equal to the code length falls off the end, which
/// returns from the function.
#[derive(Clone, Copy, PartialEq, Eq, Structural, Debug)]
pub enum Instr {
    Nop,
    Const(u64),
    LocalGet(u32),
    LocalSet(u32),
    Drop,
    Jump(u32),
    BrIf(u32),
    Call(u32),
    Ret,
    HostCall(u32),
    Load8,
    Load16,
    Load32,
    Load64,
    Store8,
    Store16,
    Store32,
    Store64,
    IAdd,
    ISub,
    IMul,
    IAnd,
    IOr,
    IXor,
    IShl,
    IShrU,
    IEq,
    INe,
    ILtU,
    IEqz,
}

/// The kind of a macro entry point, which fixes its calling convention:
/// a function-style entry takes one input buffer, an attribute-style or
/// derive-style entry takes two (arguments, target item).
#[derive(Clone, Copy, PartialEq, Eq, Structural, Debug)]
pub enum EntryKind {
    Function,
    Attribute,
    Derive,
}

/// A function signature: how many values the function takes and returns.
#[derive(Clone, Copy, PartialEq, Eq, Structural, Debug)]
pub struct FuncType {
    pub params: u32,
    pub results: u32,
}

/// A function body: its signature index, how many scratch locals it has
/// beyond its parameters, and its code.
pub struct FuncBody {
    pub ty: u32,
    pub locals: u32,
    pub code: Vec<Instr>,
}

/// Mathematical model of a function body.
pub struct FuncBodyV {
    pub ty: u32,
    pub locals: u32,
    pub code: Seq<Instr>,
}

impl View for FuncBody {
    type V = FuncBodyV;

    open spec fn view(&self) -> FuncBodyV {
        FuncBodyV { ty: self.ty, locals: self.locals, code: self.code@ }
    }
}

/// One row of the export table: an entry kind, an entry-point name, and
/// the function it dispatches to.
pub struct Export {
    pub kind: EntryKind,
    pub name: Vec<u8>,
    pub func: u32,
}

/// Mathematical model of an export-table row.
pub struct ExportV {
    pub kind: EntryKind,
    pub name: Seq<u8>,
    pub func: u32,
}

impl View for Export {
    type V = ExportV;

    open spec fn view(&self) -> ExportV {
        ExportV { kind: self.kind, name: self.name@, func: self.func }
    }
}

/// A parsed, validated guest module.
pub struct Module {
    pub types: Vec<FuncType>,
    pub funcs: Vec<FuncBody>,
    pub exports: Vec<Export>,
    pub mem_initial: u32,
    pub mem_max: u32,
}

/// Mathematical model of a module.
pub struct ModuleV {
    pub types: Seq<FuncType>,
    pub funcs: Seq<FuncBodyV>,
    pub exports: Seq<ExportV>,
    pub mem_initial: u32,
    pub mem_max: u32,
}

/// The models of a list of function bodies.
pub open spec fn funcs_model(fs: Seq<FuncBody>) -> Seq<FuncBodyV> {
    Seq::new(fs.len(), |i: int| fs[i]@)
}

/// The models of a list of export-table rows.
pub open spec fn exports_model(es: Seq<Export>) -> Seq<ExportV> {
    Seq::new(es.len(), |i: int| es[i]@)
}

impl View for Module {
    type V = ModuleV;

    open spec fn view(&self) -> ModuleV {
        ModuleV {
            types: self.types@,
            funcs: funcs_model(self.funcs@),
            exports: exports_model(self.exports@),
            mem_initial: self.mem_initial,
            mem_max: self.mem_max,
        }
    }
}

/// Whether one instruction is consistent with its surroundings: local
/// indices within the frame layout, branch targets within the code, call
/// targets within the function table, host calls within the host table.
pub open spec fn instr_wf(ins: Instr, n_locals: int, code_len: int, n_funcs: int) -> bool {
    match ins {
        Instr::LocalGet(i) => i < n_locals,
        Instr::LocalSet(i) => i < n_locals,
        Instr::Jump(t) => t <= code_len,
        Instr::BrIf(t) => t <= code_len,
        Instr::Call(f) => f < n_funcs,
        Instr::HostCall(h) => h < HOST_FUNC_COUNT,
        _ => true,
    }
}

/// How many locals a frame for this body holds: its parameters followed
/// by its scratch locals.
pub open spec fn frame_size(types: Seq<FuncType>, f: FuncBodyV) -> int {
    types[f.ty as int].params + f.locals
}

/// Whether a function body is consistent with the module around it.
pub open spec fn body_wf(types: Seq<FuncType>, f: FuncBodyV, n_funcs: int) -> bool {
    &&& (f.ty as int) < types.len()
    &&& forall|i: int|
        0 <= i < f.code.len() ==> instr_wf(
            #[trigger] f.code[i],
            frame_size(types, f),
            f.code.len() as int,
            n_funcs,
        )
}

/// Whether no two rows of an export table share a name.
pub open spec fn exports_unique(es: Seq<ExportV>) -> bool {
    forall|i: int, j: int| 0 <= i < j < es.len() ==> es[i].name != es[j].name
}

/// A validated module: every body consistent, every export pointing at a
/// real function under a unique name, and sane memory limits.
pub open spec fn module_wf(m: ModuleV) -> bool {
    &&& forall|i: int|
        0 <= i < m.funcs.len() ==> body_wf(m.types, #[trigger] m.funcs[i], m.funcs.len() as int)
    &&& forall|i: int| 0 <= i < m.exports.len() ==> (#[trigger] m.exports[i]).func < m.funcs.len()
    &&& exports_unique(m.exports)
    &&& m.mem_initial <= m.mem_max
    &&& m.mem_max <= MAX_PAGES
}

/// Whether the export table has a row for this entry kind and name.
pub open spec fn has_entry(m: ModuleV, kind: EntryKind, name: Seq<u8>) -> bool {
    exists|i: int|
        0 <= i < m.exports.len() && (#[trigger] m.exports[i]).kind == kind && m.exports[i].name
            == name
}

impl Module {
    /// Finds the export-table row for an entry kind and name, if any.
    pub fn find_export(&self, kind: EntryKind, name: &Vec<u8>) -> (r: Option<usize>)
        ensures
            match r {
                Some(i) => i < self@.exports.len() && self@.exports[i as int].kind == kind
                    && self@.exports[i as int].name == name@,
                None => !has_entry(self@, kind, name@),
            },
    {
        let mut i: usize = 0;
        while i < self.exports.len()
            invariant
                i <= self@.exports.len(),
                self@.exports.len() == self.exports@.len(),
                forall|k: int|
                    0 <= k < i ==> !((#[trigger] self@.exports[k]).kind == kind
                        && self@.exports[k].name == name@),
            decreases self.exports@.len() - i,
        {
            let e = &self.exports[i];
            let kind_matches = match (e.kind, kind) {
                (EntryKind::Function, EntryKind::Function) => true,
                (EntryKind::Attribute, EntryKind::Attribute) => true,
                (EntryKind::Derive, EntryKind::Derive) => true,
                _ => false,
            };
            if kind_matches && crate::bytes::bytes_eq(&e.name, name) {
                assert(self@.exports[i as int].kind == kind);
                return Some(i);
            }
            i += 1;
        }
        None
    }
}

} // verus!
