//! The binary module parser: decodes a byte blob into a validated
//! `Module`, or fails with a `MalformedModule` error naming the offending
//! section and byte offset.  Purely structural — nothing is executed.
//!
//! The container layout is fixed: a four-byte magic, the signature table,
//! the function table (each body carrying its code), the export table and
//! the memory limits, each table prefixed by a 32-bit count, every integer
//! little-endian.  `sp_parse` is the defining description of the format;
//! `parse` returns `Ok` exactly on the byte sequences `sp_parse` accepts.

use vstd::prelude::*;

use crate::bytes::{rd32, rd32_at, rd64, rd64_at};
use crate::module::{
    EntryKind, Export, ExportV, FuncBody, FuncBodyV, FuncType, Instr, Module, ModuleV,
    body_wf, exports_model, exports_unique, frame_size, funcs_model, instr_wf, module_wf,
    HOST_FUNC_COUNT, MAX_PAGES,
};

verus! {

pub const MAGIC0: u8 = 0x6d;

pub const MAGIC1: u8 = 0x62;

pub const MAGIC2: u8 = 0x63;

pub const MAGIC3: u8 = 0x31;

pub const OP_NOP: u8 = 1;

pub const OP_CONST: u8 = 2;

pub const OP_LOCAL_GET: u8 = 3;

pub const OP_LOCAL_SET: u8 = 4;

pub const OP_DROP: u8 = 5;

pub const OP_JUMP: u8 = 6;

pub const OP_BR_IF: u8 = 7;

pub const OP_CALL: u8 = 8;

pub const OP_RET: u8 = 9;

pub const OP_HOST_CALL: u8 = 10;

pub const OP_LOAD8: u8 = 16;

pub const OP_LOAD16: u8 = 17;

pub const OP_LOAD32: u8 = 18;

pub const OP_LOAD64: u8 = 19;

pub const OP_STORE8: u8 = 20;

pub const OP_STORE16: u8 = 21;

pub const OP_STORE32: u8 = 22;

pub const OP_STORE64: u8 = 23;

pub const OP_ADD: u8 = 32;

pub const OP_SUB: u8 = 33;

pub const OP_MUL: u8 = 34;

pub const OP_AND: u8 = 35;

pub const OP_OR: u8 = 36;

pub const OP_XOR: u8 = 37;

pub const OP_SHL: u8 = 38;

pub const OP_SHR_U: u8 = 39;

pub const OP_EQ: u8 = 40;

pub const OP_NE: u8 = 41;

pub const OP_LT_U: u8 = 42;

pub const OP_EQZ: u8 = 43;

/// The section a parse failure lies in.
#[derive(Clone, Copy, PartialEq, Eq, Structural, Debug)]
pub enum Section {
    Header,
    Types,
    Functions,
    Exports,
    Memory,
    Trailer,
}

/// A parse-time structural violation: the blob is not a module of this
/// container format.  Fatal for the blob; never the result of execution.
#[derive(Clone, Copy, PartialEq, Eq, Structural, Debug)]
pub struct MalformedModule {
    pub section: Section,
    pub offset: usize,
}

/// Reads one byte at `p`.
pub open spec fn sp_u8(b: Seq<u8>, p: int) -> Option<(u8, int)> {
    if 0 <= p && p + 1 <= b.len() {
        Some((b[p], p + 1))
    } else {
        None
    }
}

/// Reads a 32-bit little-endian value at `p`.
pub open spec fn sp_u32(b: Seq<u8>, p: int) -> Option<(u32, int)> {
    if 0 <= p && p + 4 <= b.len() {
        Some((rd32(b.subrange(p, p + 4)), p + 4))
    } else {
        None
    }
}

/// Reads a 64-bit little-endian value at `p`.
pub open spec fn sp_u64(b: Seq<u8>, p: int) -> Option<(u64, int)> {
    if 0 <= p && p + 8 <= b.len() {
        Some((rd64(b.subrange(p, p + 8)), p + 8))
    } else {
        None
    }
}

/// Decodes and validates one instruction from its opcode and immediate,
/// against the frame size `nl`, the code length `cl` and the function
/// count `nf` of its surroundings.
pub open spec fn sp_instr_decode(op: u8, imm: u64, nl: int, cl: int, nf: int) -> Option<
    Instr,
> {
    if op == OP_NOP {
        Some(Instr::Nop)
    } else if op == OP_CONST {
        Some(Instr::Const(imm))
    } else if op == OP_LOCAL_GET {
        if imm <= u32::MAX && (imm as int) < nl {
            Some(Instr::LocalGet(imm as u32))
        } else {
            None
        }
    } else if op == OP_LOCAL_SET {
        if imm <= u32::MAX && (imm as int) < nl {
            Some(Instr::LocalSet(imm as u32))
        } else {
            None
        }
    } else if op == OP_DROP {
        Some(Instr::Drop)
    } else if op == OP_JUMP {
        if imm <= u32::MAX && (imm as int) <= cl {
            Some(Instr::Jump(imm as u32))
        } else {
            None
        }
    } else if op == OP_BR_IF {
        if imm <= u32::MAX && (imm as int) <= cl {
            Some(Instr::BrIf(imm as u32))
        } else {
            None
        }
    } else if op == OP_CALL {
        if imm <= u32::MAX && (imm as int) < nf {
            Some(Instr::Call(imm as u32))
        } else {
            None
        }
    } else if op == OP_RET {
        Some(Instr::Ret)
    } else if op == OP_HOST_CALL {
        if imm < HOST_FUNC_COUNT as u64 {
            Some(Instr::HostCall(imm as u32))
        } else {
            None
        }
    } else if op == OP_LOAD8 {
        Some(Instr::Load8)
    } else if op == OP_LOAD16 {
        Some(Instr::Load16)
    } else if op == OP_LOAD32 {
        Some(Instr::Load32)
    } else if op == OP_LOAD64 {
        Some(Instr::Load64)
    } else if op == OP_STORE8 {
        Some(Instr::Store8)
    } else if op == OP_STORE16 {
        Some(Instr::Store16)
    } else if op == OP_STORE32 {
        Some(Instr::Store32)
    } else if op == OP_STORE64 {
        Some(Instr::Store64)
    } else if op == OP_ADD {
        Some(Instr::IAdd)
    } else if op == OP_SUB {
        Some(Instr::ISub)
    } else if op == OP_MUL {
        Some(Instr::IMul)
    } else if op == OP_AND {
        Some(Instr::IAnd)
    } else if op == OP_OR {
        Some(Instr::IOr)
    } else if op == OP_XOR {
        Some(Instr::IXor)
    } else if op == OP_SHL {
        Some(Instr::IShl)
    } else if op == OP_SHR_U {
        Some(Instr::IShrU)
    } else if op == OP_EQ {
        Some(Instr::IEq)
    } else if op == OP_NE {
        Some(Instr::INe)
    } else if op == OP_LT_U {
        Some(Instr::ILtU)
    } else if op == OP_EQZ {
        Some(Instr::IEqz)
    } else {
        None
    }
}

/// Reads one instruction: an opcode byte and an eight-byte immediate.
pub open spec fn sp_instr(b: Seq<u8>, p: int, nl: int, cl: int, nf: int) -> Option<
    (Instr, int),
> {
    match sp_u8(b, p) {
        None => None,
        Some((op, p1)) => match sp_u64(b, p1) {
            None => None,
            Some((imm, p2)) => match sp_instr_decode(op, imm, nl, cl, nf) {
                None => None,
                Some(ins) => Some((ins, p2)),
            },
        },
    }
}

/// Reads `n` instructions onto `acc`.
pub open spec fn sp_code(
    b: Seq<u8>,
    p: int,
    n: nat,
    nl: int,
    cl: int,
    nf: int,
    acc: Seq<Instr>,
) -> Option<(Seq<Instr>, int)>
    decreases n,
{
    if n == 0 {
        Some((acc, p))
    } else {
        match sp_instr(b, p, nl, cl, nf) {
            None => None,
            Some((ins, p1)) => sp_code(b, p1, (n - 1) as nat, nl, cl, nf, acc.push(ins)),
        }
    }
}

/// Reads `n` function signatures onto `acc`.
pub open spec fn sp_types(b: Seq<u8>, p: int, n: nat, acc: Seq<FuncType>) -> Option<
    (Seq<FuncType>, int),
>
    decreases n,
{
    if n == 0 {
        Some((acc, p))
    } else {
        match sp_u32(b, p) {
            None => None,
            Some((pa, p1)) => match sp_u32(b, p1) {
                None => None,
                Some((re, p2)) => sp_types(
                    b,
                    p2,
                    (n - 1) as nat,
                    acc.push(FuncType { params: pa, results: re }),
                ),
            },
        }
    }
}

/// Reads one function record: signature index, scratch-local count,
/// code length, then the code, validated against its surroundings.
pub open spec fn sp_func(b: Seq<u8>, p: int, types: Seq<FuncType>, nf: int) -> Option<
    (FuncBodyV, int),
> {
    match sp_u32(b, p) {
        None => None,
        Some((ty, p1)) => {
            if ty as int >= types.len() {
                None
            } else {
                match sp_u32(b, p1) {
                    None => None,
                    Some((locals, p2)) => match sp_u32(b, p2) {
                        None => None,
                        Some((cl, p3)) => {
                            let nl = types[ty as int].params + locals;
                            match sp_code(b, p3, cl as nat, nl, cl as int, nf, Seq::empty()) {
                                None => None,
                                Some((code, p4)) => Some(
                                    (FuncBodyV { ty, locals, code }, p4),
                                ),
                            }
                        },
                    },
                }
            }
        },
    }
}

/// Reads `n` function records onto `acc`.
pub open spec fn sp_funcs(
    b: Seq<u8>,
    p: int,
    n: nat,
    types: Seq<FuncType>,
    nf: int,
    acc: Seq<FuncBodyV>,
) -> Option<(Seq<FuncBodyV>, int)>
    decreases n,
{
    if n == 0 {
        Some((acc, p))
    } else {
        match sp_func(b, p, types, nf) {
            None => None,
            Some((f, p1)) => sp_funcs(b, p1, (n - 1) as nat, types, nf, acc.push(f)),
        }
    }
}

/// Reads one export-table row: entry kind, name length, name bytes and
/// function index, which must point into the function table.
pub open spec fn sp_export(b: Seq<u8>, p: int, nf: int) -> Option<(ExportV, int)> {
    match sp_u8(b, p) {
        None => None,
        Some((kb, p1)) => {
            let kind: Option<EntryKind> = if kb == 1 {
                Some(EntryKind::Function)
            } else if kb == 2 {
                Some(EntryKind::Attribute)
            } else if kb == 3 {
                Some(EntryKind::Derive)
            } else {
                None
            };
            match kind {
                None => None,
                Some(k) => match sp_u32(b, p1) {
                    None => None,
                    Some((ln, p2)) => {
                        if p2 + ln > b.len() {
                            None
                        } else {
                            let name = b.subrange(p2, p2 + ln);
                            match sp_u32(b, p2 + ln) {
                                None => None,
                                Some((f, p3)) => {
                                    if (f as int) < nf {
                                        Some((ExportV { kind: k, name, func: f }, p3))
                                    } else {
                                        None
                                    }
                                },
                            }
                        }
                    },
                },
            }
        },
    }
}

/// Reads `n` export-table rows onto `acc`.
pub open spec fn sp_exports(b: Seq<u8>, p: int, n: nat, nf: int, acc: Seq<ExportV>) -> Option<
    (Seq<ExportV>, int),
>
    decreases n,
{
    if n == 0 {
        Some((acc, p))
    } else {
        match sp_export(b, p, nf) {
            None => None,
            Some((e, p1)) => sp_exports(b, p1, (n - 1) as nat, nf, acc.push(e)),
        }
    }
}

/// The defining description of the binary container: the byte sequences
/// this function accepts are exactly the well-formed modules, and the
/// module it returns is the one the bytes encode.
pub open spec fn sp_parse(b: Seq<u8>) -> Option<ModuleV> {
    if !(b.len() >= 4 && b[0] == MAGIC0 && b[1] == MAGIC1 && b[2] == MAGIC2 && b[3]
        == MAGIC3) {
        None
    } else {
        match sp_u32(b, 4) {
            None => None,
            Some((tc, p1)) => match sp_types(b, p1, tc as nat, Seq::empty()) {
                None => None,
                Some((types, p2)) => match sp_u32(b, p2) {
                    None => None,
                    Some((fc, p3)) => match sp_funcs(
                        b,
                        p3,
                        fc as nat,
                        types,
                        fc as int,
                        Seq::empty(),
                    ) {
                        None => None,
                        Some((funcs, p4)) => match sp_u32(b, p4) {
                            None => None,
                            Some((ec, p5)) => match sp_exports(
                                b,
                                p5,
                                ec as nat,
                                fc as int,
                                Seq::empty(),
                            ) {
                                None => None,
                                Some((exports, p6)) => match sp_u32(b, p6) {
                                    None => None,
                                    Some((mi, p7)) => match sp_u32(b, p7) {
                                        None => None,
                                        Some((mx, p8)) => {
                                            if mi <= mx && mx <= MAX_PAGES && p8 == b.len()
                                                && exports_unique(exports) {
                                                Some(
                                                    ModuleV {
                                                        types,
                                                        funcs,
                                                        exports,
                                                        mem_initial: mi,
                                                        mem_max: mx,
                                                    },
                                                )
                                            } else {
                                                None
                                            }
                                        },
                                    },
                                },
                            },
                        },
                    },
                },
            },
        }
    }
}

/// The opcode byte of an instruction.
pub open spec fn opcode_of(ins: Instr) -> u8 {
    match ins {
        Instr::Nop => OP_NOP,
        Instr::Const(_) => OP_CONST,
        Instr::LocalGet(_) => OP_LOCAL_GET,
        Instr::LocalSet(_) => OP_LOCAL_SET,
        Instr::Drop => OP_DROP,
        Instr::Jump(_) => OP_JUMP,
        Instr::BrIf(_) => OP_BR_IF,
        Instr::Call(_) => OP_CALL,
        Instr::Ret => OP_RET,
        Instr::HostCall(_) => OP_HOST_CALL,
        Instr::Load8 => OP_LOAD8,
        Instr::Load16 => OP_LOAD16,
        Instr::Load32 => OP_LOAD32,
        Instr::Load64 => OP_LOAD64,
        Instr::Store8 => OP_STORE8,
        Instr::Store16 => OP_STORE16,
        Instr::Store32 => OP_STORE32,
        Instr::Store64 => OP_STORE64,
        Instr::IAdd => OP_ADD,
        Instr::ISub => OP_SUB,
        Instr::IMul => OP_MUL,
        Instr::IAnd => OP_AND,
        Instr::IOr => OP_OR,
        Instr::IXor => OP_XOR,
        Instr::IShl => OP_SHL,
        Instr::IShrU => OP_SHR_U,
        Instr::IEq => OP_EQ,
        Instr::INe => OP_NE,
        Instr::ILtU => OP_LT_U,
        Instr::IEqz => OP_EQZ,
    }
}

/// The immediate of an instruction; zero where it carries none.
pub open spec fn imm_of(ins: Instr) -> u64 {
    match ins {
        Instr::Const(c) => c,
        Instr::LocalGet(i) => i as u64,
        Instr::LocalSet(i) => i as u64,
        Instr::Jump(t) => t as u64,
        Instr::BrIf(t) => t as u64,
        Instr::Call(f) => f as u64,
        Instr::HostCall(h) => h as u64,
        _ => 0,
    }
}

/// The nine bytes of one instruction.
pub open spec fn enc_instr(ins: Instr) -> Seq<u8> {
    seq![opcode_of(ins)] + crate::bytes::le64(imm_of(ins))
}

/// The bytes of a code body, instruction after instruction.
pub open spec fn enc_code(code: Seq<Instr>) -> Seq<u8>
    decreases code.len(),
{
    if code.len() == 0 {
        Seq::empty()
    } else {
        enc_instr(code[0]) + enc_code(code.drop_first())
    }
}

/// The bytes of one signature.
pub open spec fn enc_type(t: FuncType) -> Seq<u8> {
    crate::bytes::le32(t.params) + crate::bytes::le32(t.results)
}

/// The bytes of the signature table's entries.
pub open spec fn enc_types(ts: Seq<FuncType>) -> Seq<u8>
    decreases ts.len(),
{
    if ts.len() == 0 {
        Seq::empty()
    } else {
        enc_type(ts[0]) + enc_types(ts.drop_first())
    }
}

/// The bytes of one function record.
pub open spec fn enc_func(f: FuncBodyV) -> Seq<u8> {
    crate::bytes::le32(f.ty) + crate::bytes::le32(f.locals) + crate::bytes::le32(
        f.code.len() as u32,
    ) + enc_code(f.code)
}

/// The bytes of the function table's entries.
pub open spec fn enc_funcs(fs: Seq<FuncBodyV>) -> Seq<u8>
    decreases fs.len(),
{
    if fs.len() == 0 {
        Seq::empty()
    } else {
        enc_func(fs[0]) + enc_funcs(fs.drop_first())
    }
}

/// The byte an entry kind is written as.
pub open spec fn kind_byte(k: EntryKind) -> u8 {
    match k {
        EntryKind::Function => 1,
        EntryKind::Attribute => 2,
        EntryKind::Derive => 3,
    }
}

/// The bytes of one export-table row.
pub open spec fn enc_export(e: ExportV) -> Seq<u8> {
    seq![kind_byte(e.kind)] + crate::bytes::le32(e.name.len() as u32) + e.name
        + crate::bytes::le32(e.func)
}

/// The bytes of the export table's entries.
pub open spec fn enc_exports(es: Seq<ExportV>) -> Seq<u8>
    decreases es.len(),
{
    if es.len() == 0 {
        Seq::empty()
    } else {
        enc_export(es[0]) + enc_exports(es.drop_first())
    }
}

/// The canonical byte form of a module in this container format.
pub open spec fn enc_module(m: ModuleV) -> Seq<u8> {
    seq![MAGIC0, MAGIC1, MAGIC2, MAGIC3] + crate::bytes::le32(m.types.len() as u32)
        + enc_types(m.types) + crate::bytes::le32(m.funcs.len() as u32) + enc_funcs(m.funcs)
        + crate::bytes::le32(m.exports.len() as u32) + enc_exports(m.exports)
        + crate::bytes::le32(m.mem_initial) + crate::bytes::le32(m.mem_max)
}

/// Every count and length of the module fits its four-byte field.
pub open spec fn module_bounded(m: ModuleV) -> bool {
    &&& m.types.len() < 0x1_0000_0000
    &&& m.funcs.len() < 0x1_0000_0000
    &&& m.exports.len() < 0x1_0000_0000
    &&& forall|i: int|
        0 <= i < m.funcs.len() ==> (#[trigger] m.funcs[i]).code.len() < 0x1_0000_0000
    &&& forall|i: int|
        0 <= i < m.exports.len() ==> (#[trigger] m.exports[i]).name.len() < 0x1_0000_0000
}

fn p_u32e(b: &Vec<u8>, p: usize) -> (r: Option<(u32, usize)>)
    requires
        p <= b@.len(),
    ensures
        match r {
            Some((x, p2)) => p2 == p + 4 && p2 <= b@.len() && sp_u32(b@, p as int) == Some(
                (x, p2 as int),
            ),
            None => sp_u32(b@, p as int) is None,
        },
{
    let n = b.len();
    if n - p < 4 {
        return None;
    }
    Some((rd32_at(b, p), p + 4))
}

fn p_u64e(b: &Vec<u8>, p: usize) -> (r: Option<(u64, usize)>)
    requires
        p <= b@.len(),
    ensures
        match r {
            Some((x, p2)) => p2 == p + 8 && p2 <= b@.len() && sp_u64(b@, p as int) == Some(
                (x, p2 as int),
            ),
            None => sp_u64(b@, p as int) is None,
        },
{
    let n = b.len();
    if n - p < 8 {
        return None;
    }
    Some((rd64_at(b, p), p + 8))
}

fn instr_decode(op: u8, imm: u64, nl: u64, cl: u32, nf: u32) -> (r: Option<Instr>)
    ensures
        r == sp_instr_decode(op, imm, nl as int, cl as int, nf as int),
{
    if op == OP_NOP {
        Some(Instr::Nop)
    } else if op == OP_CONST {
        Some(Instr::Const(imm))
    } else if op == OP_LOCAL_GET {
        if imm <= u32::MAX as u64 && imm < nl {
            Some(Instr::LocalGet(imm as u32))
        } else {
            None
        }
    } else if op == OP_LOCAL_SET {
        if imm <= u32::MAX as u64 && imm < nl {
            Some(Instr::LocalSet(imm as u32))
        } else {
            None
        }
    } else if op == OP_DROP {
        Some(Instr::Drop)
    } else if op == OP_JUMP {
        if imm <= cl as u64 {
            Some(Instr::Jump(imm as u32))
        } else {
            None
        }
    } else if op == OP_BR_IF {
        if imm <= cl as u64 {
            Some(Instr::BrIf(imm as u32))
        } else {
            None
        }
    } else if op == OP_CALL {
        if imm < nf as u64 {
            Some(Instr::Call(imm as u32))
        } else {
            None
        }
    } else if op == OP_RET {
        Some(Instr::Ret)
    } else if op == OP_HOST_CALL {
        if imm < HOST_FUNC_COUNT as u64 {
            Some(Instr::HostCall(imm as u32))
        } else {
            None
        }
    } else if op == OP_LOAD8 {
        Some(Instr::Load8)
    } else if op == OP_LOAD16 {
        Some(Instr::Load16)
    } else if op == OP_LOAD32 {
        Some(Instr::Load32)
    } else if op == OP_LOAD64 {
        Some(Instr::Load64)
    } else if op == OP_STORE8 {
        Some(Instr::Store8)
    } else if op == OP_STORE16 {
        Some(Instr::Store16)
    } else if op == OP_STORE32 {
        Some(Instr::Store32)
    } else if op == OP_STORE64 {
        Some(Instr::Store64)
    } else if op == OP_ADD {
        Some(Instr::IAdd)
    } else if op == OP_SUB {
        Some(Instr::ISub)
    } else if op == OP_MUL {
        Some(Instr::IMul)
    } else if op == OP_AND {
        Some(Instr::IAnd)
    } else if op == OP_OR {
        Some(Instr::IOr)
    } else if op == OP_XOR {
        Some(Instr::IXor)
    } else if op == OP_SHL {
        Some(Instr::IShl)
    } else if op == OP_SHR_U {
        Some(Instr::IShrU)
    } else if op == OP_EQ {
        Some(Instr::IEq)
    } else if op == OP_NE {
        Some(Instr::INe)
    } else if op == OP_LT_U {
        Some(Instr::ILtU)
    } else if op == OP_EQZ {
        Some(Instr::IEqz)
    } else {
        None
    }
}

fn p_instr(b: &Vec<u8>, p: usize, nl: u64, cl: u32, nf: u32) -> (r: Option<(Instr, usize)>)
    requires
        p <= b@.len(),
    ensures
        match r {
            Some((ins, p2)) => p < p2 <= b@.len() && sp_instr(
                b@,
                p as int,
                nl as int,
                cl as int,
                nf as int,
            ) == Some((ins, p2 as int)),
            None => sp_instr(b@, p as int, nl as int, cl as int, nf as int) is None,
        },
{
    let n = b.len();
    if n - p < 1 {
        return None;
    }
    let op = b[p];
    match p_u64e(b, p + 1) {
        None => None,
        Some((imm, p2)) => match instr_decode(op, imm, nl, cl, nf) {
            None => None,
            Some(ins) => Some((ins, p2)),
        },
    }
}

#[verifier::loop_isolation(false)]
fn p_func(b: &Vec<u8>, p: usize, types: &Vec<FuncType>, nf: u32) -> (r: Result<
    (FuncBody, usize),
    MalformedModule,
>)
    requires
        p <= b@.len(),
    ensures
        match r {
            Ok((f, p2)) => p2 <= b@.len() && sp_func(b@, p as int, types@, nf as int) == Some(
                (f@, p2 as int),
            ) && body_wf(types@, f@, nf as int),
            Err(_) => sp_func(b@, p as int, types@, nf as int) is None,
        },
{
    let (ty, p1) = match p_u32e(b, p) {
        Some(v) => v,
        None => {
            return Err(MalformedModule { section: Section::Functions, offset: p });
        },
    };
    if ty as usize >= types.len() {
        return Err(MalformedModule { section: Section::Functions, offset: p });
    }
    let (locals, p2) = match p_u32e(b, p1) {
        Some(v) => v,
        None => {
            return Err(MalformedModule { section: Section::Functions, offset: p1 });
        },
    };
    let (cl, p3) = match p_u32e(b, p2) {
        Some(v) => v,
        None => {
            return Err(MalformedModule { section: Section::Functions, offset: p2 });
        },
    };
    let nl: u64 = types[ty as usize].params as u64 + locals as u64;
    let mut code: Vec<Instr> = Vec::new();
    let mut pos = p3;
    let mut k: u32 = 0;
    while k < cl
        invariant
            k <= cl,
            pos <= b@.len(),
            code@.len() == k,
            nl == types@[ty as int].params + locals,
            (ty as int) < types@.len(),
            forall|q: int|
                0 <= q < code@.len() ==> instr_wf(
                    #[trigger] code@[q],
                    nl as int,
                    cl as int,
                    nf as int,
                ),
            sp_code(
                b@,
                p3 as int,
                cl as nat,
                nl as int,
                cl as int,
                nf as int,
                Seq::empty(),
            ) == sp_code(
                b@,
                pos as int,
                (cl - k) as nat,
                nl as int,
                cl as int,
                nf as int,
                code@,
            ),
        decreases cl - k,
    {
        match p_instr(b, pos, nl, cl, nf) {
            None => {
                return Err(MalformedModule { section: Section::Functions, offset: pos });
            },
            Some((ins, p4)) => {
                code.push(ins);
                pos = p4;
                k = k + 1;
            },
        }
    }
    proof {
        assert(sp_code(
            b@,
            p3 as int,
            cl as nat,
            nl as int,
            cl as int,
            nf as int,
            Seq::empty(),
        ) == Some((code@, pos as int)));
    }
    let f = FuncBody { ty, locals, code };
    proof {
        assert(sp_func(b@, p as int, types@, nf as int) == Some((f@, pos as int)));
        assert(body_wf(types@, f@, nf as int));
    }
    Ok((f, pos))
}

fn p_export(b: &Vec<u8>, p: usize, nf: u32) -> (r: Result<(Export, usize), MalformedModule>)
    requires
        p <= b@.len(),
    ensures
        match r {
            Ok((e, p2)) => p2 <= b@.len() && sp_export(b@, p as int, nf as int) == Some(
                (e@, p2 as int),
            ) && e@.func < nf,
            Err(_) => sp_export(b@, p as int, nf as int) is None,
        },
{
    let n = b.len();
    if n - p < 1 {
        return Err(MalformedModule { section: Section::Exports, offset: p });
    }
    let kb = b[p];
    let kind = if kb == 1 {
        EntryKind::Function
    } else if kb == 2 {
        EntryKind::Attribute
    } else if kb == 3 {
        EntryKind::Derive
    } else {
        return Err(MalformedModule { section: Section::Exports, offset: p });
    };
    let (ln, p2) = match p_u32e(b, p + 1) {
        Some(v) => v,
        None => {
            return Err(MalformedModule { section: Section::Exports, offset: p });
        },
    };
    let ln_us = ln as usize;
    if n - p2 < ln_us {
        return Err(MalformedModule { section: Section::Exports, offset: p2 });
    }
    let mut name: Vec<u8> = Vec::new();
    let mut j: usize = 0;
    while j < ln_us
        invariant
            j <= ln_us,
            p2 + ln_us <= b@.len(),
            b@.len() <= usize::MAX,
            name@ == b@.subrange(p2 as int, p2 + j),
        decreases ln_us - j,
    {
        name.push(b[p2 + j]);
        assert(name@ =~= b@.subrange(p2 as int, p2 + j + 1));
        j += 1;
    }
    let (f, p3) = match p_u32e(b, p2 + ln_us) {
        Some(v) => v,
        None => {
            return Err(MalformedModule { section: Section::Exports, offset: p2 });
        },
    };
    if f >= nf {
        return Err(MalformedModule { section: Section::Exports, offset: p2 });
    }
    Ok((Export { kind, name, func: f }, p3))
}

/// Parses and validates a binary module blob.  Succeeds exactly on the
/// byte sequences of the container format (`sp_parse`), and then returns
/// the module the bytes encode, which is well formed.  On any other
/// input it fails with a `MalformedModule` error naming a section and
/// offset — it never panics and never executes guest code.
#[verifier::rlimit(80)]
#[verifier::loop_isolation(false)]
pub fn parse(b: &Vec<u8>) -> (r: Result<Module, MalformedModule>)
    ensures
        match r {
            Ok(m) => sp_parse(b@) == Some(m@) && module_wf(m@),
            Err(_) => sp_parse(b@) is None,
        },
{
    let n = b.len();
    if n < 4 || b[0] != MAGIC0 || b[1] != MAGIC1 || b[2] != MAGIC2 || b[3] != MAGIC3 {
        return Err(MalformedModule { section: Section::Header, offset: 0 });
    }
    // Signature table.
    let (tc, tp) = match p_u32e(b, 4) {
        Some(v) => v,
        None => {
            return Err(MalformedModule { section: Section::Types, offset: 4 });
        },
    };
    let mut types: Vec<FuncType> = Vec::new();
    let mut pos = tp;
    let mut i: u32 = 0;
    while i < tc
        invariant
            i <= tc,
            pos <= b@.len(),
            sp_types(b@, tp as int, tc as nat, Seq::empty()) == sp_types(
                b@,
                pos as int,
                (tc - i) as nat,
                types@,
            ),
        decreases tc - i,
    {
        let (pa, q1) = match p_u32e(b, pos) {
            Some(v) => v,
            None => {
                return Err(MalformedModule { section: Section::Types, offset: pos });
            },
        };
        let (re, q2) = match p_u32e(b, q1) {
            Some(v) => v,
            None => {
                return Err(MalformedModule { section: Section::Types, offset: q1 });
            },
        };
        types.push(FuncType { params: pa, results: re });
        pos = q2;
        i = i + 1;
    }
    // Function table.
    let (fc, fp) = match p_u32e(b, pos) {
        Some(v) => v,
        None => {
            return Err(MalformedModule { section: Section::Functions, offset: pos });
        },
    };
    let mut funcs: Vec<FuncBody> = Vec::new();
    proof {
        assert(funcs_model(funcs@) =~= Seq::<FuncBodyV>::empty());
    }
    pos = fp;
    i = 0;
    while i < fc
        invariant
            i <= fc,
            pos <= b@.len(),
            funcs@.len() == i,
            forall|q: int|
                0 <= q < funcs_model(funcs@).len() ==> body_wf(
                    types@,
                    #[trigger] funcs_model(funcs@)[q],
                    fc as int,
                ),
            sp_funcs(b@, fp as int, fc as nat, types@, fc as int, Seq::empty()) == sp_funcs(
                b@,
                pos as int,
                (fc - i) as nat,
                types@,
                fc as int,
                funcs_model(funcs@),
            ),
        decreases fc - i,
    {
        match p_func(b, pos, &types, fc) {
            Err(e) => {
                return Err(e);
            },
            Ok((f, q1)) => {
                let ghost before = funcs@;
                funcs.push(f);
                proof {
                    assert(funcs_model(funcs@) =~= funcs_model(before).push(f@));
                }
                pos = q1;
                i = i + 1;
            },
        }
    }
    // Export table.
    let (ec, ep) = match p_u32e(b, pos) {
        Some(v) => v,
        None => {
            return Err(MalformedModule { section: Section::Exports, offset: pos });
        },
    };
    let mut exports: Vec<Export> = Vec::new();
    proof {
        assert(exports_model(exports@) =~= Seq::<ExportV>::empty());
    }
    pos = ep;
    i = 0;
    while i < ec
        invariant
            i <= ec,
            pos <= b@.len(),
            exports@.len() == i,
            forall|q: int|
                0 <= q < exports_model(exports@).len() ==> (#[trigger] exports_model(
                    exports@,
                )[q]).func < fc,
            sp_exports(b@, ep as int, ec as nat, fc as int, Seq::empty()) == sp_exports(
                b@,
                pos as int,
                (ec - i) as nat,
                fc as int,
                exports_model(exports@),
            ),
        decreases ec - i,
    {
        match p_export(b, pos, fc) {
            Err(e) => {
                return Err(e);
            },
            Ok((e, q1)) => {
                let ghost before = exports@;
                exports.push(e);
                proof {
                    assert(exports_model(exports@) =~= exports_model(before).push(e@));
                }
                pos = q1;
                i = i + 1;
            },
        }
    }
    // Export names must be unique.
    let ghost em = exports_model(exports@);
    let mut a: usize = 0;
    while a < exports.len()
        invariant
            a <= exports@.len(),
            forall|x: int, y: int|
                0 <= x < y < em.len() && x < a ==> em[x].name != em[y].name,
        decreases exports@.len() - a,
    {
        let mut c: usize = a + 1;
        while c < exports.len()
            invariant
                a < exports@.len(),
                a + 1 <= c <= exports@.len(),
                forall|y: int| a < y < c ==> em[a as int].name != em[y].name,
            decreases exports@.len() - c,
        {
            if crate::bytes::bytes_eq(&exports[a].name, &exports[c].name) {
                proof {
                    assert(em[a as int].name == em[c as int].name);
                    assert(!exports_unique(em));
                    assert(sp_parse(b@) is None);
                }
                return Err(MalformedModule { section: Section::Exports, offset: ep });
            }
            c += 1;
        }
        a += 1;
    }
    assert(exports_unique(em));
    // Memory limits.
    let (mi, p7) = match p_u32e(b, pos) {
        Some(v) => v,
        None => {
            return Err(MalformedModule { section: Section::Memory, offset: pos });
        },
    };
    let (mx, p8) = match p_u32e(b, p7) {
        Some(v) => v,
        None => {
            return Err(MalformedModule { section: Section::Memory, offset: p7 });
        },
    };
    if !(mi <= mx && mx <= MAX_PAGES) {
        return Err(MalformedModule { section: Section::Memory, offset: p7 });
    }
    if p8 != n {
        return Err(MalformedModule { section: Section::Trailer, offset: p8 });
    }
    let m = Module { types, funcs, exports, mem_initial: mi, mem_max: mx };
    Ok(m)
}

proof fn lemma_u8_at(b: Seq<u8>, p: int, x: u8, rest: Seq<u8>)
    requires
        0 <= p <= b.len(),
        b.skip(p) == seq![x] + rest,
    ensures
        sp_u8(b, p) == Some((x, p + 1)),
        b.skip(p + 1) == rest,
{
    let s = b.skip(p);
    assert(s.len() == b.len() - p);
    assert(s[0] == b[p]);
    assert(x == (seq![x] + rest)[0]);
    assert forall|k: int| 0 <= k < rest.len() implies b.skip(p + 1)[k] == rest[k] by {
        assert(b.skip(p + 1)[k] == b[p + 1 + k]);
        assert(s[1 + k] == b[p + 1 + k]);
        assert((seq![x] + rest)[1 + k] == rest[k]);
    }
    assert(b.skip(p + 1).len() == rest.len());
    assert(b.skip(p + 1) =~= rest);
}

proof fn lemma_u32_at(b: Seq<u8>, p: int, x: u32, rest: Seq<u8>)
    requires
        0 <= p <= b.len(),
        b.skip(p) == crate::bytes::le32(x) + rest,
    ensures
        sp_u32(b, p) == Some((x, p + 4)),
        b.skip(p + 4) == rest,
{
    crate::bytes::lemma_le32_rt(x);
    let s = b.skip(p);
    let enc = crate::bytes::le32(x);
    assert(s.len() == b.len() - p);
    assert forall|k: int| 0 <= k < 4 implies b.subrange(p, p + 4)[k] == enc[k] by {
        assert(b.subrange(p, p + 4)[k] == b[p + k]);
        assert(s[k] == b[p + k]);
        assert((enc + rest)[k] == enc[k]);
    }
    assert(b.subrange(p, p + 4) =~= enc);
    assert forall|k: int| 0 <= k < rest.len() implies b.skip(p + 4)[k] == rest[k] by {
        assert(b.skip(p + 4)[k] == b[p + 4 + k]);
        assert(s[4 + k] == b[p + 4 + k]);
        assert((enc + rest)[4 + k] == rest[k]);
    }
    assert(b.skip(p + 4) =~= rest);
}

proof fn lemma_u64_at(b: Seq<u8>, p: int, x: u64, rest: Seq<u8>)
    requires
        0 <= p <= b.len(),
        b.skip(p) == crate::bytes::le64(x) + rest,
    ensures
        sp_u64(b, p) == Some((x, p + 8)),
        b.skip(p + 8) == rest,
{
    crate::bytes::lemma_le64_rt(x);
    let s = b.skip(p);
    let enc = crate::bytes::le64(x);
    assert(s.len() == b.len() - p);
    assert forall|k: int| 0 <= k < 8 implies b.subrange(p, p + 8)[k] == enc[k] by {
        assert(b.subrange(p, p + 8)[k] == b[p + k]);
        assert(s[k] == b[p + k]);
        assert((enc + rest)[k] == enc[k]);
    }
    assert(b.subrange(p, p + 8) =~= enc);
    assert forall|k: int| 0 <= k < rest.len() implies b.skip(p + 8)[k] == rest[k] by {
        assert(b.skip(p + 8)[k] == b[p + 8 + k]);
        assert(s[8 + k] == b[p + 8 + k]);
        assert((enc + rest)[8 + k] == rest[k]);
    }
    assert(b.skip(p + 8) =~= rest);
}

proof fn lemma_rt_instr(
    b: Seq<u8>,
    p: int,
    ins: Instr,
    rest: Seq<u8>,
    nl: int,
    cl: int,
    nf: int,
)
    requires
        0 <= p <= b.len(),
        b.skip(p) == enc_instr(ins) + rest,
        instr_wf(ins, nl, cl, nf),
    ensures
        sp_instr(b, p, nl, cl, nf) == Some((ins, p + 9)),
        b.skip(p + 9) == rest,
{
    let tail = crate::bytes::le64(imm_of(ins)) + rest;
    assert(b.skip(p) =~= seq![opcode_of(ins)] + tail);
    lemma_u8_at(b, p, opcode_of(ins), tail);
    lemma_u64_at(b, p + 1, imm_of(ins), rest);
    assert(sp_instr_decode(opcode_of(ins), imm_of(ins), nl, cl, nf) == Some(ins));
}

proof fn lemma_rt_code(
    b: Seq<u8>,
    p: int,
    code: Seq<Instr>,
    rest: Seq<u8>,
    nl: int,
    cl: int,
    nf: int,
    acc: Seq<Instr>,
)
    requires
        0 <= p <= b.len(),
        b.skip(p) == enc_code(code) + rest,
        forall|i: int| 0 <= i < code.len() ==> instr_wf(#[trigger] code[i], nl, cl, nf),
    ensures
        sp_code(b, p, code.len() as nat, nl, cl, nf, acc) == Some(
            (acc + code, p + enc_code(code).len()),
        ),
        b.skip(p + enc_code(code).len()) == rest,
    decreases code.len(),
{
    if code.len() == 0 {
        assert(acc + code =~= acc);
        assert(b.skip(p) =~= rest);
    } else {
        let c0 = code[0];
        let tl = code.drop_first();
        assert(b.skip(p) =~= enc_instr(c0) + (enc_code(tl) + rest));
        lemma_rt_instr(b, p, c0, enc_code(tl) + rest, nl, cl, nf);
        lemma_rt_code(b, p + 9, tl, rest, nl, cl, nf, acc.push(c0));
        assert(acc.push(c0) + tl =~= acc + code);
    }
}

proof fn lemma_rt_types(b: Seq<u8>, p: int, ts: Seq<FuncType>, rest: Seq<u8>, acc: Seq<FuncType>)
    requires
        0 <= p <= b.len(),
        b.skip(p) == enc_types(ts) + rest,
    ensures
        sp_types(b, p, ts.len() as nat, acc) == Some((acc + ts, p + enc_types(ts).len())),
        b.skip(p + enc_types(ts).len()) == rest,
    decreases ts.len(),
{
    if ts.len() == 0 {
        assert(acc + ts =~= acc);
        assert(b.skip(p) =~= rest);
    } else {
        let t0 = ts[0];
        let tl = ts.drop_first();
        assert(b.skip(p) =~= crate::bytes::le32(t0.params) + (crate::bytes::le32(t0.results)
            + (enc_types(tl) + rest)));
        lemma_u32_at(b, p, t0.params, crate::bytes::le32(t0.results) + (enc_types(tl) + rest));
        lemma_u32_at(b, p + 4, t0.results, enc_types(tl) + rest);
        lemma_rt_types(b, p + 8, tl, rest, acc.push(t0));
        assert(acc.push(t0) + tl =~= acc + ts);
        assert(acc.push(FuncType { params: t0.params, results: t0.results }) == acc.push(t0));
    }
}

proof fn lemma_rt_func(
    b: Seq<u8>,
    p: int,
    f: FuncBodyV,
    rest: Seq<u8>,
    types: Seq<FuncType>,
    nf: int,
)
    requires
        0 <= p <= b.len(),
        b.skip(p) == enc_func(f) + rest,
        body_wf(types, f, nf),
        f.code.len() < 0x1_0000_0000,
    ensures
        sp_func(b, p, types, nf) == Some((f, p + enc_func(f).len())),
        b.skip(p + enc_func(f).len()) == rest,
{
    let cl32 = f.code.len() as u32;
    assert(b.skip(p) =~= crate::bytes::le32(f.ty) + (crate::bytes::le32(f.locals) + (
    crate::bytes::le32(cl32) + (enc_code(f.code) + rest))));
    lemma_u32_at(
        b,
        p,
        f.ty,
        crate::bytes::le32(f.locals) + (crate::bytes::le32(cl32) + (enc_code(f.code) + rest)),
    );
    lemma_u32_at(b, p + 4, f.locals, crate::bytes::le32(cl32) + (enc_code(f.code) + rest));
    lemma_u32_at(b, p + 8, cl32, enc_code(f.code) + rest);
    let nl = types[f.ty as int].params + f.locals;
    assert(nl == frame_size(types, f));
    lemma_rt_code(b, p + 12, f.code, rest, nl, f.code.len() as int, nf, Seq::empty());
    assert(Seq::<Instr>::empty() + f.code =~= f.code);
    assert(sp_func(b, p, types, nf) == Some(
        (FuncBodyV { ty: f.ty, locals: f.locals, code: f.code }, p + enc_func(f).len()),
    ));
    assert(FuncBodyV { ty: f.ty, locals: f.locals, code: f.code } == f);
}

proof fn lemma_rt_funcs(
    b: Seq<u8>,
    p: int,
    fs: Seq<FuncBodyV>,
    rest: Seq<u8>,
    types: Seq<FuncType>,
    nf: int,
    acc: Seq<FuncBodyV>,
)
    requires
        0 <= p <= b.len(),
        b.skip(p) == enc_funcs(fs) + rest,
        forall|i: int| 0 <= i < fs.len() ==> body_wf(types, #[trigger] fs[i], nf),
        forall|i: int| 0 <= i < fs.len() ==> (#[trigger] fs[i]).code.len() < 0x1_0000_0000,
    ensures
        sp_funcs(b, p, fs.len() as nat, types, nf, acc) == Some(
            (acc + fs, p + enc_funcs(fs).len()),
        ),
        b.skip(p + enc_funcs(fs).len()) == rest,
    decreases fs.len(),
{
    if fs.len() == 0 {
        assert(acc + fs =~= acc);
        assert(b.skip(p) =~= rest);
    } else {
        let f0 = fs[0];
        let tl = fs.drop_first();
        assert(b.skip(p) =~= enc_func(f0) + (enc_funcs(tl) + rest));
        lemma_rt_func(b, p, f0, enc_funcs(tl) + rest, types, nf);
        lemma_rt_funcs(b, p + enc_func(f0).len(), tl, rest, types, nf, acc.push(f0));
        assert(acc.push(f0) + tl =~= acc + fs);
    }
}

proof fn lemma_rt_export(b: Seq<u8>, p: int, e: ExportV, rest: Seq<u8>, nf: int)
    requires
        0 <= p <= b.len(),
        b.skip(p) == enc_export(e) + rest,
        (e.func as int) < nf,
        e.name.len() < 0x1_0000_0000,
    ensures
        sp_export(b, p, nf) == Some((e, p + enc_export(e).len())),
        b.skip(p + enc_export(e).len()) == rest,
{
    let ln32 = e.name.len() as u32;
    assert(b.skip(p) =~= seq![kind_byte(e.kind)] + (crate::bytes::le32(ln32) + (e.name + (
    crate::bytes::le32(e.func) + rest))));
    lemma_u8_at(
        b,
        p,
        kind_byte(e.kind),
        crate::bytes::le32(ln32) + (e.name + (crate::bytes::le32(e.func) + rest)),
    );
    lemma_u32_at(b, p + 1, ln32, e.name + (crate::bytes::le32(e.func) + rest));
    let p2 = p + 5;
    let nlen = e.name.len() as int;
    let s2 = b.skip(p2);
    let tail = crate::bytes::le32(e.func) + rest;
    assert(s2.len() == b.len() - p2);
    assert forall|k: int| 0 <= k < nlen implies b.subrange(p2, p2 + nlen)[k] == e.name[k] by {
        assert(b.subrange(p2, p2 + nlen)[k] == b[p2 + k]);
        assert(s2[k] == b[p2 + k]);
        assert((e.name + tail)[k] == e.name[k]);
    }
    assert(b.subrange(p2, p2 + nlen) =~= e.name);
    assert forall|k: int| 0 <= k < tail.len() implies b.skip(p2 + nlen)[k] == tail[k] by {
        assert(b.skip(p2 + nlen)[k] == b[p2 + nlen + k]);
        assert(s2[nlen + k] == b[p2 + nlen + k]);
        assert((e.name + tail)[nlen + k] == tail[k]);
    }
    assert(b.skip(p2 + nlen) =~= tail);
    lemma_u32_at(b, p2 + e.name.len(), e.func, rest);
    assert(sp_export(b, p, nf) == Some(
        (ExportV { kind: e.kind, name: e.name, func: e.func }, p + enc_export(e).len()),
    ));
    assert(ExportV { kind: e.kind, name: e.name, func: e.func } == e);
}

proof fn lemma_rt_exports(
    b: Seq<u8>,
    p: int,
    es: Seq<ExportV>,
    rest: Seq<u8>,
    nf: int,
    acc: Seq<ExportV>,
)
    requires
        0 <= p <= b.len(),
        b.skip(p) == enc_exports(es) + rest,
        forall|i: int| 0 <= i < es.len() ==> ((#[trigger] es[i]).func as int) < nf,
        forall|i: int| 0 <= i < es.len() ==> (#[trigger] es[i]).name.len() < 0x1_0000_0000,
    ensures
        sp_exports(b, p, es.len() as nat, nf, acc) == Some(
            (acc + es, p + enc_exports(es).len()),
        ),
        b.skip(p + enc_exports(es).len()) == rest,
    decreases es.len(),
{
    if es.len() == 0 {
        assert(acc + es =~= acc);
        assert(b.skip(p) =~= rest);
    } else {
        let e0 = es[0];
        let tl = es.drop_first();
        assert(b.skip(p) =~= enc_export(e0) + (enc_exports(tl) + rest));
        lemma_rt_export(b, p, e0, enc_exports(tl) + rest, nf);
        lemma_rt_exports(b, p + enc_export(e0).len(), tl, rest, nf, acc.push(e0));
        assert(acc.push(e0) + tl =~= acc + es);
    }
}

/// Completeness of the parser: the canonical encoding of every
/// well-formed, well-sized module parses back to exactly that module.
/// Together with `parse`'s contract this pins the container format both
/// ways: `sp_parse` accepts an encoding and returns the module it
/// encodes, and rejects everything else as malformed.
#[verifier::rlimit(100)]
#[verifier::spinoff_prover]
pub proof fn lemma_parse_round_trip(m: ModuleV)
    requires
        module_wf(m),
        module_bounded(m),
    ensures
        sp_parse(enc_module(m)) == Some(m),
{
    let b = enc_module(m);
    let tc = m.types.len() as u32;
    let fc = m.funcs.len() as u32;
    let ec = m.exports.len() as u32;
    let rest1 = enc_types(m.types) + (crate::bytes::le32(fc) + (enc_funcs(m.funcs) + (
    crate::bytes::le32(ec) + (enc_exports(m.exports) + (crate::bytes::le32(m.mem_initial)
        + crate::bytes::le32(m.mem_max))))));
    assert(b[0] == MAGIC0 && b[1] == MAGIC1 && b[2] == MAGIC2 && b[3] == MAGIC3);
    assert(b.skip(4) =~= crate::bytes::le32(tc) + rest1);
    lemma_u32_at(b, 4, tc, rest1);
    let rest2 = crate::bytes::le32(fc) + (enc_funcs(m.funcs) + (crate::bytes::le32(ec) + (
    enc_exports(m.exports) + (crate::bytes::le32(m.mem_initial) + crate::bytes::le32(
        m.mem_max,
    )))));
    assert(b.skip(8) =~= enc_types(m.types) + rest2);
    lemma_rt_types(b, 8, m.types, rest2, Seq::empty());
    assert(Seq::<FuncType>::empty() + m.types =~= m.types);
    let p2 = 8 + enc_types(m.types).len() as int;
    let rest3 = enc_funcs(m.funcs) + (crate::bytes::le32(ec) + (enc_exports(m.exports) + (
    crate::bytes::le32(m.mem_initial) + crate::bytes::le32(m.mem_max))));
    lemma_u32_at(b, p2, fc, rest3);
    let p3 = p2 + 4;
    let rest4 = crate::bytes::le32(ec) + (enc_exports(m.exports) + (crate::bytes::le32(
        m.mem_initial,
    ) + crate::bytes::le32(m.mem_max)));
    assert(b.skip(p3) =~= enc_funcs(m.funcs) + rest4);
    lemma_rt_funcs(b, p3, m.funcs, rest4, m.types, m.funcs.len() as int, Seq::empty());
    assert(Seq::<FuncBodyV>::empty() + m.funcs =~= m.funcs);
    let p4 = p3 + enc_funcs(m.funcs).len() as int;
    let rest5 = enc_exports(m.exports) + (crate::bytes::le32(m.mem_initial)
        + crate::bytes::le32(m.mem_max));
    lemma_u32_at(b, p4, ec, rest5);
    let p5 = p4 + 4;
    let rest6 = crate::bytes::le32(m.mem_initial) + crate::bytes::le32(m.mem_max);
    assert(b.skip(p5) =~= enc_exports(m.exports) + rest6);
    lemma_rt_exports(b, p5, m.exports, rest6, m.funcs.len() as int, Seq::empty());
    assert(Seq::<ExportV>::empty() + m.exports =~= m.exports);
    let p6 = p5 + enc_exports(m.exports).len() as int;
    lemma_u32_at(b, p6, m.mem_initial, crate::bytes::le32(m.mem_max));
    let p7 = p6 + 4;
    assert(b.skip(p7) =~= crate::bytes::le32(m.mem_max) + Seq::<u8>::empty());
    lemma_u32_at(b, p7, m.mem_max, Seq::empty());
    assert(p7 + 4 == b.len());
    assert(sp_parse(b) == Some(
        ModuleV {
            types: m.types,
            funcs: m.funcs,
            exports: m.exports,
            mem_initial: m.mem_initial,
            mem_max: m.mem_max,
        },
    ));
    assert(ModuleV {
        types: m.types,
        funcs: m.funcs,
        exports: m.exports,
        mem_initial: m.mem_initial,
        mem_max: m.mem_max,
    } == m);
}


} // verus!
