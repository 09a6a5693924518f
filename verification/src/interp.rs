//! The bytecode interpreter: a stack machine that executes one exported
//! function of a module against an `Instance` — a linear memory, an
//! operand stack per call frame, and a call-frame stack.  Every abnormal
//! condition (an out-of-bounds access, a stack violation, a call outside
//! the function table, a signature mismatch, an explicit guest abort)
//! ends the call with a trap; a trap never unwinds into host state.
//!
//! `spec_step` is the operational semantics, one instruction at a time;
//! `step` is proved to implement exactly one `spec_step`, and `run`'s
//! outcome is pinned to the iterate `spec_run_n` of the semantics.

use vstd::prelude::*;

use crate::bytes::{le16, le32, le64, rd16, rd32, rd64};
use crate::memory::{store_bytes, Memory, GROW_FAIL};
use crate::module::{frame_size, module_wf, Instr, Module, ModuleV, HOST_GROW, PAGE_SIZE};

verus! {

/// Ceiling on the call-frame stack: a deeper call chain traps.
pub const MAX_CALL_DEPTH: usize = 256;

/// Why a call trapped.
#[derive(Clone, Copy, PartialEq, Eq, Structural, Debug)]
pub enum TrapKind {
    MemoryOutOfBounds,
    StackViolation,
    UndefinedCall,
    SignatureMismatch,
    ExplicitAbort,
}

/// A trap: its kind, and for an explicit guest abort the message the
/// guest left in its memory.
pub struct Trap {
    pub kind: TrapKind,
    pub msg: Vec<u8>,
}

/// Mathematical model of a trap.
#[verifier::ext_equal]
pub struct TrapV {
    pub kind: TrapKind,
    pub msg: Seq<u8>,
}

impl View for Trap {
    type V = TrapV;

    open spec fn view(&self) -> TrapV {
        TrapV { kind: self.kind, msg: self.msg@ }
    }
}

/// One call frame: the function it runs, its program counter, its
/// locals (parameters first) and its operand stack.
pub struct Frame {
    pub func: u32,
    pub pc: usize,
    pub locals: Vec<u64>,
    pub ops: Vec<u64>,
}

/// Mathematical model of a call frame.
#[verifier::ext_equal]
pub struct FrameV {
    pub func: u32,
    pub pc: int,
    pub locals: Seq<u64>,
    pub ops: Seq<u64>,
}

impl View for Frame {
    type V = FrameV;

    open spec fn view(&self) -> FrameV {
        FrameV { func: self.func, pc: self.pc as int, locals: self.locals@, ops: self.ops@ }
    }
}

/// The models of a frame stack.
pub open spec fn frames_model(fs: Seq<Frame>) -> Seq<FrameV> {
    Seq::new(fs.len(), |i: int| fs[i]@)
}

/// The per-call mutable execution state: exclusively owned by one
/// in-flight call, created fresh for it and discarded afterwards, so
/// concurrent calls cannot interfere by construction.
pub struct Instance {
    pub mem: Memory,
    pub frames: Vec<Frame>,
}

/// Mathematical model of an instance: the memory bytes, the page
/// ceiling, and the frame stack.
#[verifier::ext_equal]
pub struct InstanceV {
    pub mem: Seq<u8>,
    pub mem_max_pages: u32,
    pub frames: Seq<FrameV>,
}

impl View for Instance {
    type V = InstanceV;

    open spec fn view(&self) -> InstanceV {
        InstanceV {
            mem: self.mem@,
            mem_max_pages: self.mem.spec_max_pages(),
            frames: frames_model(self.frames@),
        }
    }
}

/// A frame consistent with its module: a real function, a program
/// counter inside (or just past) its code, and a full set of locals.
pub open spec fn frame_wf(m: ModuleV, f: FrameV) -> bool {
    &&& (f.func as int) < m.funcs.len()
    &&& 0 <= f.pc <= m.funcs[f.func as int].code.len()
    &&& f.locals.len() == frame_size(m.types, m.funcs[f.func as int])
}

/// An instance consistent with its module.
pub open spec fn inst_wf(m: ModuleV, s: InstanceV) -> bool {
    forall|i: int| 0 <= i < s.frames.len() ==> frame_wf(m, #[trigger] s.frames[i])
}

/// The result of one step of the semantics.  A finished call carries its
/// result values and the final contents of the linear memory, where the
/// result buffer lives.
pub enum StepR {
    Next(InstanceV),
    Trap(TrapV),
    Done(Seq<u64>, Seq<u8>),
}

pub open spec fn trap_r(k: TrapKind) -> StepR {
    StepR::Trap(TrapV { kind: k, msg: Seq::empty() })
}

/// `s` with its top frame replaced.
pub open spec fn with_top(s: InstanceV, f: FrameV) -> InstanceV {
    InstanceV {
        mem: s.mem,
        mem_max_pages: s.mem_max_pages,
        frames: s.frames.update(s.frames.len() - 1, f),
    }
}

/// Returning from the top frame: the declared number of results is
/// taken off its operand stack; the call finishes when it was the last
/// frame, otherwise the results are pushed onto the caller's stack and
/// the caller resumes.
pub open spec fn spec_ret(m: ModuleV, s: InstanceV) -> StepR {
    let f = s.frames.last();
    let b = m.funcs[f.func as int];
    let nres = m.types[b.ty as int].results as int;
    if f.ops.len() < nres {
        trap_r(TrapKind::SignatureMismatch)
    } else {
        let vals = f.ops.skip(f.ops.len() - nres);
        if s.frames.len() == 1 {
            StepR::Done(vals, s.mem)
        } else {
            let caller = s.frames[s.frames.len() - 2];
            let caller2 = FrameV {
                func: caller.func,
                pc: caller.pc,
                locals: caller.locals,
                ops: caller.ops + vals,
            };
            StepR::Next(
                InstanceV {
                    mem: s.mem,
                    mem_max_pages: s.mem_max_pages,
                    frames: s.frames.drop_last().update(s.frames.len() - 2, caller2),
                },
            )
        }
    }
}

/// The top frame, with the program counter moved to `pc` and the operand
/// stack replaced.
pub open spec fn top_at(s: InstanceV, pc: int, ops: Seq<u64>) -> FrameV {
    let f = s.frames.last();
    FrameV { func: f.func, pc, locals: f.locals, ops }
}

/// One step of the semantics for the instruction `ins` at the top
/// frame's program counter.
pub open spec fn spec_instr_step(m: ModuleV, s: InstanceV, ins: Instr) -> StepR {
    let f = s.frames.last();
    let pc1 = f.pc + 1;
    match ins {
        Instr::Nop => StepR::Next(with_top(s, top_at(s, pc1, f.ops))),
        Instr::Const(c) => StepR::Next(with_top(s, top_at(s, pc1, f.ops.push(c)))),
        Instr::LocalGet(i) => StepR::Next(
            with_top(s, top_at(s, pc1, f.ops.push(f.locals[i as int]))),
        ),
        Instr::LocalSet(i) => {
            if f.ops.len() < 1 {
                trap_r(TrapKind::StackViolation)
            } else {
                let f2 = FrameV {
                    func: f.func,
                    pc: pc1,
                    locals: f.locals.update(i as int, f.ops.last()),
                    ops: f.ops.drop_last(),
                };
                StepR::Next(with_top(s, f2))
            }
        },
        Instr::Drop => {
            if f.ops.len() < 1 {
                trap_r(TrapKind::StackViolation)
            } else {
                StepR::Next(with_top(s, top_at(s, pc1, f.ops.drop_last())))
            }
        },
        Instr::Jump(t) => StepR::Next(with_top(s, top_at(s, t as int, f.ops))),
        Instr::BrIf(t) => {
            if f.ops.len() < 1 {
                trap_r(TrapKind::StackViolation)
            } else {
                let target = if f.ops.last() != 0 {
                    t as int
                } else {
                    pc1
                };
                StepR::Next(with_top(s, top_at(s, target, f.ops.drop_last())))
            }
        },
        Instr::Call(fi) => {
            let cb = m.funcs[fi as int];
            let ct = m.types[cb.ty as int];
            let nargs = ct.params as int;
            if f.ops.len() < nargs {
                trap_r(TrapKind::StackViolation)
            } else if s.frames.len() >= MAX_CALL_DEPTH {
                trap_r(TrapKind::StackViolation)
            } else {
                let args = f.ops.skip(f.ops.len() - nargs);
                let f2 = top_at(s, pc1, f.ops.take(f.ops.len() - nargs));
                let callee = FrameV {
                    func: fi,
                    pc: 0,
                    locals: args + Seq::new(cb.locals as nat, |q: int| 0u64),
                    ops: Seq::empty(),
                };
                StepR::Next(
                    InstanceV {
                        mem: s.mem,
                        mem_max_pages: s.mem_max_pages,
                        frames: s.frames.update(s.frames.len() - 1, f2).push(callee),
                    },
                )
            }
        },
        Instr::Ret => spec_ret(m, s),
        Instr::HostCall(h) => {
            if h == HOST_GROW {
                if f.ops.len() < 1 {
                    trap_r(TrapKind::StackViolation)
                } else {
                    let delta = f.ops.last();
                    let popped = f.ops.drop_last();
                    if s.mem.len() + delta * PAGE_SIZE <= s.mem_max_pages * PAGE_SIZE {
                        let oldpages = ((s.mem.len() as int) / (PAGE_SIZE as int)) as u64;
                        let grown = s.mem + Seq::new((delta * PAGE_SIZE) as nat, |q: int| 0u8);
                        StepR::Next(
                            InstanceV {
                                mem: grown,
                                mem_max_pages: s.mem_max_pages,
                                frames: s.frames.update(
                                    s.frames.len() - 1,
                                    top_at(s, pc1, popped.push(oldpages)),
                                ),
                            },
                        )
                    } else {
                        StepR::Next(with_top(s, top_at(s, pc1, popped.push(GROW_FAIL))))
                    }
                }
            } else {
                // The abort host function: the guest hands over the
                // address and length of its message and the call ends in
                // an explicit-abort trap carrying that message.
                if f.ops.len() < 2 {
                    trap_r(TrapKind::StackViolation)
                } else {
                    let l = f.ops.last();
                    let p = f.ops[f.ops.len() - 2];
                    let msg = if p + l <= s.mem.len() {
                        s.mem.subrange(p as int, p + l)
                    } else {
                        Seq::empty()
                    };
                    StepR::Trap(TrapV { kind: TrapKind::ExplicitAbort, msg })
                }
            }
        },
        Instr::Load8 => {
            if f.ops.len() < 1 {
                trap_r(TrapKind::StackViolation)
            } else {
                let a = f.ops.last();
                if a + 1 <= s.mem.len() {
                    StepR::Next(
                        with_top(
                            s,
                            top_at(s, pc1, f.ops.drop_last().push(s.mem[a as int] as u64)),
                        ),
                    )
                } else {
                    trap_r(TrapKind::MemoryOutOfBounds)
                }
            }
        },
        Instr::Load16 => {
            if f.ops.len() < 1 {
                trap_r(TrapKind::StackViolation)
            } else {
                let a = f.ops.last();
                if a + 2 <= s.mem.len() {
                    StepR::Next(
                        with_top(
                            s,
                            top_at(
                                s,
                                pc1,
                                f.ops.drop_last().push(
                                    rd16(s.mem.subrange(a as int, a + 2)) as u64,
                                ),
                            ),
                        ),
                    )
                } else {
                    trap_r(TrapKind::MemoryOutOfBounds)
                }
            }
        },
        Instr::Load32 => {
            if f.ops.len() < 1 {
                trap_r(TrapKind::StackViolation)
            } else {
                let a = f.ops.last();
                if a + 4 <= s.mem.len() {
                    StepR::Next(
                        with_top(
                            s,
                            top_at(
                                s,
                                pc1,
                                f.ops.drop_last().push(
                                    rd32(s.mem.subrange(a as int, a + 4)) as u64,
                                ),
                            ),
                        ),
                    )
                } else {
                    trap_r(TrapKind::MemoryOutOfBounds)
                }
            }
        },
        Instr::Load64 => {
            if f.ops.len() < 1 {
                trap_r(TrapKind::StackViolation)
            } else {
                let a = f.ops.last();
                if a + 8 <= s.mem.len() {
                    StepR::Next(
                        with_top(
                            s,
                            top_at(
                                s,
                                pc1,
                                f.ops.drop_last().push(rd64(s.mem.subrange(a as int, a + 8))),
                            ),
                        ),
                    )
                } else {
                    trap_r(TrapKind::MemoryOutOfBounds)
                }
            }
        },
        Instr::Store8 => {
            if f.ops.len() < 2 {
                trap_r(TrapKind::StackViolation)
            } else {
                let v = f.ops.last();
                let a = f.ops[f.ops.len() - 2];
                if a + 1 <= s.mem.len() {
                    StepR::Next(
                        InstanceV {
                            mem: store_bytes(s.mem, a as int, seq![(v & 0xff) as u8]),
                            mem_max_pages: s.mem_max_pages,
                            frames: s.frames.update(
                                s.frames.len() - 1,
                                top_at(s, pc1, f.ops.drop_last().drop_last()),
                            ),
                        },
                    )
                } else {
                    trap_r(TrapKind::MemoryOutOfBounds)
                }
            }
        },
        Instr::Store16 => {
            if f.ops.len() < 2 {
                trap_r(TrapKind::StackViolation)
            } else {
                let v = f.ops.last();
                let a = f.ops[f.ops.len() - 2];
                if a + 2 <= s.mem.len() {
                    StepR::Next(
                        InstanceV {
                            mem: store_bytes(s.mem, a as int, le16((v & 0xffff) as u16)),
                            mem_max_pages: s.mem_max_pages,
                            frames: s.frames.update(
                                s.frames.len() - 1,
                                top_at(s, pc1, f.ops.drop_last().drop_last()),
                            ),
                        },
                    )
                } else {
                    trap_r(TrapKind::MemoryOutOfBounds)
                }
            }
        },
        Instr::Store32 => {
            if f.ops.len() < 2 {
                trap_r(TrapKind::StackViolation)
            } else {
                let v = f.ops.last();
                let a = f.ops[f.ops.len() - 2];
                if a + 4 <= s.mem.len() {
                    StepR::Next(
                        InstanceV {
                            mem: store_bytes(s.mem, a as int, le32((v & 0xffff_ffff) as u32)),
                            mem_max_pages: s.mem_max_pages,
                            frames: s.frames.update(
                                s.frames.len() - 1,
                                top_at(s, pc1, f.ops.drop_last().drop_last()),
                            ),
                        },
                    )
                } else {
                    trap_r(TrapKind::MemoryOutOfBounds)
                }
            }
        },
        Instr::Store64 => {
            if f.ops.len() < 2 {
                trap_r(TrapKind::StackViolation)
            } else {
                let v = f.ops.last();
                let a = f.ops[f.ops.len() - 2];
                if a + 8 <= s.mem.len() {
                    StepR::Next(
                        InstanceV {
                            mem: store_bytes(s.mem, a as int, le64(v)),
                            mem_max_pages: s.mem_max_pages,
                            frames: s.frames.update(
                                s.frames.len() - 1,
                                top_at(s, pc1, f.ops.drop_last().drop_last()),
                            ),
                        },
                    )
                } else {
                    trap_r(TrapKind::MemoryOutOfBounds)
                }
            }
        },
        _ => spec_binop_step(s, ins),
    }
}

/// The value a binary or unary arithmetic instruction computes from `a`
/// and `b` (for `IEqz`, from `a` alone).  Integer arithmetic wraps.
pub open spec fn spec_arith(ins: Instr, a: u64, b: u64) -> u64 {
    match ins {
        Instr::IAdd => vstd::wrapping::u64_specs::wrapping_add(a, b),
        Instr::ISub => vstd::wrapping::u64_specs::wrapping_sub(a, b),
        Instr::IMul => vstd::wrapping::u64_specs::wrapping_mul(a, b),
        Instr::IAnd => a & b,
        Instr::IOr => a | b,
        Instr::IXor => a ^ b,
        Instr::IShl => a << (b & 63),
        Instr::IShrU => a >> (b & 63),
        Instr::IEq => if a == b {
            1u64
        } else {
            0u64
        },
        Instr::INe => if a != b {
            1u64
        } else {
            0u64
        },
        Instr::ILtU => if a < b {
            1u64
        } else {
            0u64
        },
        Instr::IEqz => if a == 0 {
            1u64
        } else {
            0u64
        },
        _ => 0u64,
    }
}

/// One step for the arithmetic instructions: the operands come off the
/// operand stack, the result goes back on.
pub open spec fn spec_binop_step(s: InstanceV, ins: Instr) -> StepR {
    let f = s.frames.last();
    let pc1 = f.pc + 1;
    if ins == Instr::IEqz {
        if f.ops.len() < 1 {
            trap_r(TrapKind::StackViolation)
        } else {
            let a = f.ops.last();
            StepR::Next(
                with_top(s, top_at(s, pc1, f.ops.drop_last().push(spec_arith(ins, a, 0)))),
            )
        }
    } else {
        if f.ops.len() < 2 {
            trap_r(TrapKind::StackViolation)
        } else {
            let b = f.ops.last();
            let a = f.ops[f.ops.len() - 2];
            StepR::Next(
                with_top(
                    s,
                    top_at(s, pc1, f.ops.drop_last().drop_last().push(spec_arith(ins, a, b))),
                ),
            )
        }
    }
}

/// One step of the operational semantics.
pub open spec fn spec_step(m: ModuleV, s: InstanceV) -> StepR {
    if s.frames.len() == 0 {
        trap_r(TrapKind::StackViolation)
    } else {
        let f = s.frames.last();
        let code = m.funcs[f.func as int].code;
        if f.pc == code.len() {
            spec_ret(m, s)
        } else if 0 <= f.pc < code.len() {
            spec_instr_step(m, s, code[f.pc])
        } else {
            trap_r(TrapKind::StackViolation)
        }
    }
}

/// The semantics iterated `n` times from `s`: still running, or the
/// outcome it reached within `n` steps.
pub open spec fn spec_run_n(m: ModuleV, s: InstanceV, n: nat) -> StepR
    decreases n,
{
    if n == 0 {
        StepR::Next(s)
    } else {
        match spec_run_n(m, s, (n - 1) as nat) {
            StepR::Next(s2) => spec_step(m, s2),
            StepR::Trap(t) => StepR::Trap(t),
            StepR::Done(vs, memf) => StepR::Done(vs, memf),
        }
    }
}

/// How many bytes a store instruction writes.
pub open spec fn store_width(ins: Instr) -> int {
    match ins {
        Instr::Store8 => 1,
        Instr::Store16 => 2,
        Instr::Store32 => 4,
        Instr::Store64 => 8,
        _ => 0,
    }
}

/// A guest write past its allocated memory bound traps with
/// `MemoryOutOfBounds`, whatever the store width: the step neither
/// changes the memory nor continues.  The dispatch layer converts the
/// trap into a `Diagnostic`, and because every call runs on an instance
/// of its own, built afresh from the module and the call's own inputs, a
/// trapped call leaves nothing behind that a later call could observe.
pub proof fn lemma_store_past_bound_traps(m: ModuleV, s: InstanceV)
    requires
        s.frames.len() >= 1,
        ({
            let f = s.frames.last();
            let code = m.funcs[f.func as int].code;
            &&& 0 <= f.pc < code.len()
            &&& store_width(code[f.pc]) > 0
            &&& f.ops.len() >= 2
            &&& f.ops[f.ops.len() - 2] + store_width(code[f.pc]) > s.mem.len()
        }),
    ensures
        spec_step(m, s) == trap_r(TrapKind::MemoryOutOfBounds),
{
}

/// A growth request beyond the page maximum fails the growth operation
/// without trapping: the guest observes the failure value on its stack,
/// the memory is unchanged, and execution continues at the next
/// instruction.
pub proof fn lemma_grow_past_max_fails_without_trap(m: ModuleV, s: InstanceV)
    requires
        s.frames.len() >= 1,
        ({
            let f = s.frames.last();
            let code = m.funcs[f.func as int].code;
            &&& 0 <= f.pc < code.len()
            &&& code[f.pc] == Instr::HostCall(HOST_GROW)
            &&& f.ops.len() >= 1
            &&& s.mem.len() + f.ops.last() * PAGE_SIZE > s.mem_max_pages * PAGE_SIZE
        }),
    ensures
        ({
            let f = s.frames.last();
            spec_step(m, s) == StepR::Next(
                with_top(s, top_at(s, f.pc + 1, f.ops.drop_last().push(GROW_FAIL))),
            )
        }),
{
}

/// A terminal outcome of the semantics is stable: once a run has
/// trapped or finished, iterating further changes nothing.
pub proof fn lemma_spec_run_n_stable(m: ModuleV, s: InstanceV, n1: nat, n2: nat)
    requires
        n1 <= n2,
        !(spec_run_n(m, s, n1) is Next),
    ensures
        spec_run_n(m, s, n2) == spec_run_n(m, s, n1),
    decreases n2 - n1,
{
    if n1 < n2 {
        lemma_spec_run_n_stable(m, s, n1, (n2 - 1) as nat);
    }
}

/// The semantics reaches at most one outcome from a given state: two
/// terminal results of any two step counts are the same.
pub proof fn lemma_run_outcome_unique(m: ModuleV, s: InstanceV, n1: nat, n2: nat)
    requires
        !(spec_run_n(m, s, n1) is Next),
        !(spec_run_n(m, s, n2) is Next),
    ensures
        spec_run_n(m, s, n1) == spec_run_n(m, s, n2),
{
    if n1 <= n2 {
        lemma_spec_run_n_stable(m, s, n1, n2);
    } else {
        lemma_spec_run_n_stable(m, s, n2, n1);
    }
}

/// Takes the last `n` values off `v` and returns them, in order.
fn split_off_tail(v: &mut Vec<u64>, n: usize) -> (tail: Vec<u64>)
    requires
        n <= old(v)@.len(),
    ensures
        final(v)@ == old(v)@.take(old(v)@.len() - n),
        tail@ == old(v)@.skip(old(v)@.len() - n),
{
    let start = v.len() - n;
    let mut tail: Vec<u64> = Vec::new();
    let mut j: usize = 0;
    while j < n
        invariant
            j <= n,
            start + n == old(v)@.len(),
            old(v)@.len() <= usize::MAX,
            v@ == old(v)@,
            tail@ == old(v)@.subrange(start as int, start + j),
        decreases n - j,
    {
        tail.push(v[start + j]);
        assert(tail@ =~= old(v)@.subrange(start as int, start + j + 1));
        j += 1;
    }
    let mut k: usize = 0;
    while k < n
        invariant
            k <= n,
            n <= old(v)@.len(),
            v@ == old(v)@.take(old(v)@.len() - k),
        decreases n - k,
    {
        v.pop();
        proof {
            assert(v@ =~= old(v)@.take(old(v)@.len() - (k + 1)));
        }
        k += 1;
    }
    proof {
        assert(tail@ =~= old(v)@.skip(old(v)@.len() - n));
    }
    tail
}

/// The value an arithmetic instruction computes.
fn arith(ins: Instr, a: u64, b: u64) -> (r: u64)
    ensures
        r == spec_arith(ins, a, b),
{
    match ins {
        Instr::IAdd => a.wrapping_add(b),
        Instr::ISub => a.wrapping_sub(b),
        Instr::IMul => a.wrapping_mul(b),
        Instr::IAnd => a & b,
        Instr::IOr => a | b,
        Instr::IXor => a ^ b,
        Instr::IShl => {
            proof {
                assert((b & 63) < 64u64) by (bit_vector);
            }
            a << (b & 63)
        },
        Instr::IShrU => {
            proof {
                assert((b & 63) < 64u64) by (bit_vector);
            }
            a >> (b & 63)
        },
        Instr::IEq => if a == b {
            1
        } else {
            0
        },
        Instr::INe => if a != b {
            1
        } else {
            0
        },
        Instr::ILtU => if a < b {
            1
        } else {
            0
        },
        Instr::IEqz => if a == 0 {
            1
        } else {
            0
        },
        _ => 0,
    }
}

/// What one executed step came to.
pub enum StepExec {
    Continue,
    Trapped(Trap),
    Finished(Vec<u64>),
}

fn trap_e(k: TrapKind) -> (t: Trap)
    ensures
        t@ == (TrapV { kind: k, msg: Seq::<u8>::empty() }),
{
    let t = Trap { kind: k, msg: Vec::new() };
    proof {
        assert(t@ =~= TrapV { kind: k, msg: Seq::<u8>::empty() });
    }
    t
}


/// The instructions that touch only the top frame's program counter,
/// operand stack and locals.
pub open spec fn is_frame_ins(ins: Instr) -> bool {
    match ins {
        Instr::Nop | Instr::Const(_) | Instr::LocalGet(_) | Instr::LocalSet(_) | Instr::Drop
            | Instr::Jump(_) | Instr::BrIf(_) => true,
        _ => false,
    }
}

/// The arithmetic instructions.
pub open spec fn is_arith_ins(ins: Instr) -> bool {
    match ins {
        Instr::IAdd | Instr::ISub | Instr::IMul | Instr::IAnd | Instr::IOr | Instr::IXor
            | Instr::IShl | Instr::IShrU | Instr::IEq | Instr::INe | Instr::ILtU
            | Instr::IEqz => true,
        _ => false,
    }
}

/// The memory-access instructions.
pub open spec fn is_load_ins(ins: Instr) -> bool {
    match ins {
        Instr::Load8 | Instr::Load16 | Instr::Load32 | Instr::Load64 => true,
        _ => false,
    }
}

pub open spec fn is_store_ins(ins: Instr) -> bool {
    match ins {
        Instr::Store8 | Instr::Store16 | Instr::Store32 | Instr::Store64 => true,
        _ => false,
    }
}

fn step_frame_ins(
    m: &Module,
    inst: &mut Instance,
    f: Frame,
    ins: Instr,
    Ghost(s0): Ghost<InstanceV>,
) -> (r: StepExec)
    requires
        module_wf(m@),
        inst_wf(m@, s0),
        s0.frames.len() >= 1,
        old(inst).mem.wf(),
        old(inst)@.mem == s0.mem,
        old(inst)@.mem_max_pages == s0.mem_max_pages,
        frames_model(old(inst).frames@) == s0.frames.drop_last(),
        f@ == s0.frames.last(),
        is_frame_ins(ins),
        s0.frames.last().pc < m@.funcs[s0.frames.last().func as int].code.len(),
        crate::module::instr_wf(
            ins,
            frame_size(m@.types, m@.funcs[s0.frames.last().func as int]),
            m@.funcs[s0.frames.last().func as int].code.len() as int,
            m@.funcs.len() as int,
        ),
    ensures
        final(inst).mem.wf(),
        match r {
            StepExec::Continue => spec_instr_step(m@, s0, ins) == StepR::Next(final(inst)@)
                && inst_wf(m@, final(inst)@) && final(inst)@.frames.len() >= 1,
            StepExec::Trapped(t) => spec_instr_step(m@, s0, ins) == StepR::Trap(t@),
            StepExec::Finished(vs) => spec_instr_step(m@, s0, ins) == StepR::Done(vs@, final(inst)@.mem),
        },
{
    proof {
        assert(frames_model(old(inst).frames@).len() == old(inst).frames@.len());
        assert(old(inst).frames@.len() + 1 == s0.frames.len());
    }
    let ghost fv = s0.frames.last();
    let mut f = f;
    // The code length bounds the program counter, so advancing it cannot
    // overflow.
    let code_len = m.funcs[f.func as usize].code.len();
    let pc1 = f.pc + 1;
    match ins {
        Instr::Nop => {
            f.pc = pc1;
            inst.frames.push(f);
            proof {
                lemma_push_top(s0, inst@, f@, top_at(s0, fv.pc + 1, fv.ops));
            }
            StepExec::Continue
        },
        Instr::Const(c) => {
            f.pc = pc1;
            f.ops.push(c);
            inst.frames.push(f);
            proof {
                lemma_push_top(s0, inst@, f@, top_at(s0, fv.pc + 1, fv.ops.push(c)));
            }
            StepExec::Continue
        },
        Instr::LocalGet(i) => {
            let v = f.locals[i as usize];
            f.pc = pc1;
            f.ops.push(v);
            inst.frames.push(f);
            proof {
                lemma_push_top(s0, inst@, f@, top_at(s0, fv.pc + 1, fv.ops.push(v)));
            }
            StepExec::Continue
        },
        Instr::LocalSet(i) => {
            let v = match f.ops.pop() {
                Some(v) => v,
                None => {
                    return StepExec::Trapped(trap_e(TrapKind::StackViolation));
                },
            };
            f.locals.set(i as usize, v);
            f.pc = pc1;
            inst.frames.push(f);
            proof {
                assert(f.ops@ =~= fv.ops.drop_last());
                lemma_push_top(
                    s0,
                    inst@,
                    f@,
                    FrameV {
                        func: fv.func,
                        pc: fv.pc + 1,
                        locals: fv.locals.update(i as int, fv.ops.last()),
                        ops: fv.ops.drop_last(),
                    },
                );
            }
            StepExec::Continue
        },
        Instr::Drop => {
            match f.ops.pop() {
                Some(_) => {},
                None => {
                    return StepExec::Trapped(trap_e(TrapKind::StackViolation));
                },
            };
            f.pc = pc1;
            inst.frames.push(f);
            proof {
                assert(f.ops@ =~= fv.ops.drop_last());
                lemma_push_top(s0, inst@, f@, top_at(s0, fv.pc + 1, fv.ops.drop_last()));
            }
            StepExec::Continue
        },
        Instr::Jump(t) => {
            f.pc = t as usize;
            inst.frames.push(f);
            proof {
                lemma_push_top(s0, inst@, f@, top_at(s0, t as int, fv.ops));
            }
            StepExec::Continue
        },
        Instr::BrIf(t) => {
            let c = match f.ops.pop() {
                Some(v) => v,
                None => {
                    return StepExec::Trapped(trap_e(TrapKind::StackViolation));
                },
            };
            f.pc = if c != 0 {
                t as usize
            } else {
                pc1
            };
            inst.frames.push(f);
            proof {
                assert(f.ops@ =~= fv.ops.drop_last());
                let target: int = if fv.ops.last() != 0 {
                    t as int
                } else {
                    fv.pc + 1
                };
                lemma_push_top(s0, inst@, f@, top_at(s0, target, fv.ops.drop_last()));
            }
            StepExec::Continue
        },
        _ => {
            assert(false);
            StepExec::Continue
        },
    }
}

fn step_arith_ins(
    m: &Module,
    inst: &mut Instance,
    f: Frame,
    ins: Instr,
    Ghost(s0): Ghost<InstanceV>,
) -> (r: StepExec)
    requires
        module_wf(m@),
        inst_wf(m@, s0),
        s0.frames.len() >= 1,
        old(inst).mem.wf(),
        old(inst)@.mem == s0.mem,
        old(inst)@.mem_max_pages == s0.mem_max_pages,
        frames_model(old(inst).frames@) == s0.frames.drop_last(),
        f@ == s0.frames.last(),
        is_arith_ins(ins),
        s0.frames.last().pc < m@.funcs[s0.frames.last().func as int].code.len(),
    ensures
        final(inst).mem.wf(),
        match r {
            StepExec::Continue => spec_instr_step(m@, s0, ins) == StepR::Next(final(inst)@)
                && inst_wf(m@, final(inst)@) && final(inst)@.frames.len() >= 1,
            StepExec::Trapped(t) => spec_instr_step(m@, s0, ins) == StepR::Trap(t@),
            StepExec::Finished(vs) => spec_instr_step(m@, s0, ins) == StepR::Done(vs@, final(inst)@.mem),
        },
{
    proof {
        assert(frames_model(old(inst).frames@).len() == old(inst).frames@.len());
        assert(old(inst).frames@.len() + 1 == s0.frames.len());
    }
    let ghost fv = s0.frames.last();
    let mut f = f;
    // The code length bounds the program counter, so advancing it cannot
    // overflow.
    let code_len = m.funcs[f.func as usize].code.len();
    let pc1 = f.pc + 1;
    proof {
        assert(spec_instr_step(m@, s0, ins) == spec_binop_step(s0, ins));
    }
    let is_unary = match ins {
        Instr::IEqz => true,
        _ => false,
    };
    if is_unary {
        let a = match f.ops.pop() {
            Some(v) => v,
            None => {
                return StepExec::Trapped(trap_e(TrapKind::StackViolation));
            },
        };
        let r = arith(ins, a, 0);
        f.ops.push(r);
        f.pc = pc1;
        inst.frames.push(f);
        proof {
            assert(f.ops@ =~= fv.ops.drop_last().push(spec_arith(ins, fv.ops.last(), 0)));
            lemma_push_top(s0, inst@, f@, top_at(s0, fv.pc + 1, f.ops@));
        }
        StepExec::Continue
    } else {
        let b = match f.ops.pop() {
            Some(v) => v,
            None => {
                return StepExec::Trapped(trap_e(TrapKind::StackViolation));
            },
        };
        let a = match f.ops.pop() {
            Some(v) => v,
            None => {
                return StepExec::Trapped(trap_e(TrapKind::StackViolation));
            },
        };
        proof {
            assert(b == fv.ops.last() && a == fv.ops[fv.ops.len() - 2]);
        }
        let r = arith(ins, a, b);
        f.ops.push(r);
        f.pc = pc1;
        inst.frames.push(f);
        proof {
            assert(f.ops@ =~= fv.ops.drop_last().drop_last().push(spec_arith(ins, a, b)));
            lemma_push_top(s0, inst@, f@, top_at(s0, fv.pc + 1, f.ops@));
        }
        StepExec::Continue
    }
}

fn step_call_ins(
    m: &Module,
    inst: &mut Instance,
    f: Frame,
    ins: Instr,
    Ghost(s0): Ghost<InstanceV>,
) -> (r: StepExec)
    requires
        module_wf(m@),
        inst_wf(m@, s0),
        s0.frames.len() >= 1,
        old(inst).mem.wf(),
        old(inst)@.mem == s0.mem,
        old(inst)@.mem_max_pages == s0.mem_max_pages,
        frames_model(old(inst).frames@) == s0.frames.drop_last(),
        f@ == s0.frames.last(),
        ins matches Instr::Call(_),
        s0.frames.last().pc < m@.funcs[s0.frames.last().func as int].code.len(),
        crate::module::instr_wf(
            ins,
            frame_size(m@.types, m@.funcs[s0.frames.last().func as int]),
            m@.funcs[s0.frames.last().func as int].code.len() as int,
            m@.funcs.len() as int,
        ),
    ensures
        final(inst).mem.wf(),
        match r {
            StepExec::Continue => spec_instr_step(m@, s0, ins) == StepR::Next(final(inst)@)
                && inst_wf(m@, final(inst)@) && final(inst)@.frames.len() >= 1,
            StepExec::Trapped(t) => spec_instr_step(m@, s0, ins) == StepR::Trap(t@),
            StepExec::Finished(vs) => spec_instr_step(m@, s0, ins) == StepR::Done(vs@, final(inst)@.mem),
        },
{
    proof {
        assert(frames_model(old(inst).frames@).len() == old(inst).frames@.len());
        assert(old(inst).frames@.len() + 1 == s0.frames.len());
    }
    let ghost fv = s0.frames.last();
    let mut f = f;
    // The code length bounds the program counter, so advancing it cannot
    // overflow.
    let code_len = m.funcs[f.func as usize].code.len();
    let pc1 = f.pc + 1;
    let ci = match ins {
        Instr::Call(ci) => ci,
        _ => {
            assert(false);
            return StepExec::Continue;
        },
    };
    let cb = &m.funcs[ci as usize];
    let ghost cbv = m@.funcs[ci as int];
    proof {
        assert(cb@ == cbv);
        assert(cbv.ty < m@.types.len());
    }
    let nargs = m.types[cb.ty as usize].params as usize;
    if f.ops.len() < nargs {
        return StepExec::Trapped(trap_e(TrapKind::StackViolation));
    }
    if inst.frames.len() >= MAX_CALL_DEPTH - 1 {
        proof {
            assert(s0.frames.len() >= MAX_CALL_DEPTH);
        }
        return StepExec::Trapped(trap_e(TrapKind::StackViolation));
    }
    proof {
        assert(s0.frames.len() < MAX_CALL_DEPTH);
    }
    let mut locals = split_off_tail(&mut f.ops, nargs);
    let ghost argsv = locals@;
    let n_extra = cb.locals as usize;
    let mut zi: usize = 0;
    while zi < n_extra
        invariant
            zi <= n_extra,
            locals@ =~= argsv + Seq::new(zi as nat, |q: int| 0u64),
        decreases n_extra - zi,
    {
        locals.push(0);
        proof {
            assert(locals@ =~= argsv + Seq::new((zi + 1) as nat, |q: int| 0u64));
        }
        zi += 1;
    }
    f.pc = pc1;
    inst.frames.push(f);
    let callee = Frame { func: ci, pc: 0, locals, ops: Vec::new() };
    inst.frames.push(callee);
    proof {
        let f2 = top_at(s0, fv.pc + 1, fv.ops.take(fv.ops.len() - nargs));
        let calleev = FrameV {
            func: ci,
            pc: 0,
            locals: argsv + Seq::new(cbv.locals as nat, |q: int| 0u64),
            ops: Seq::<u64>::empty(),
        };
        let mid = old(inst).frames@.push(f);
        assert(inst.frames@ == mid.push(callee));
        lemma_frames_model_push(old(inst).frames@, f);
        lemma_frames_model_push(mid, callee);
        assert(f@ =~= f2);
        assert(callee@ =~= calleev);
        assert(s0.frames.drop_last().push(f2) =~= s0.frames.update(s0.frames.len() - 1, f2));
        assert(frames_model(inst.frames@) =~= s0.frames.update(s0.frames.len() - 1, f2).push(
            calleev,
        ));
        assert(inst@ =~= InstanceV {
            mem: s0.mem,
            mem_max_pages: s0.mem_max_pages,
            frames: s0.frames.update(s0.frames.len() - 1, f2).push(calleev),
        });
        assert(frame_size(m@.types, cbv) == argsv.len() + cbv.locals);
        assert(spec_instr_step(m@, s0, ins) == StepR::Next(inst@));
    }
    StepExec::Continue
}

fn step_host_ins(
    m: &Module,
    inst: &mut Instance,
    f: Frame,
    ins: Instr,
    Ghost(s0): Ghost<InstanceV>,
) -> (r: StepExec)
    requires
        module_wf(m@),
        inst_wf(m@, s0),
        s0.frames.len() >= 1,
        old(inst).mem.wf(),
        old(inst)@.mem == s0.mem,
        old(inst)@.mem_max_pages == s0.mem_max_pages,
        frames_model(old(inst).frames@) == s0.frames.drop_last(),
        f@ == s0.frames.last(),
        ins matches Instr::HostCall(_),
        s0.frames.last().pc < m@.funcs[s0.frames.last().func as int].code.len(),
    ensures
        final(inst).mem.wf(),
        match r {
            StepExec::Continue => spec_instr_step(m@, s0, ins) == StepR::Next(final(inst)@)
                && inst_wf(m@, final(inst)@) && final(inst)@.frames.len() >= 1,
            StepExec::Trapped(t) => spec_instr_step(m@, s0, ins) == StepR::Trap(t@),
            StepExec::Finished(vs) => spec_instr_step(m@, s0, ins) == StepR::Done(vs@, final(inst)@.mem),
        },
{
    proof {
        assert(frames_model(old(inst).frames@).len() == old(inst).frames@.len());
        assert(old(inst).frames@.len() + 1 == s0.frames.len());
    }
    let ghost fv = s0.frames.last();
    let mut f = f;
    // The code length bounds the program counter, so advancing it cannot
    // overflow.
    let code_len = m.funcs[f.func as usize].code.len();
    let pc1 = f.pc + 1;
    let h = match ins {
        Instr::HostCall(h) => h,
        _ => {
            assert(false);
            return StepExec::Continue;
        },
    };
    if h == HOST_GROW {
        let delta = match f.ops.pop() {
            Some(v) => v,
            None => {
                return StepExec::Trapped(trap_e(TrapKind::StackViolation));
            },
        };
        let res = inst.mem.grow(delta);
        f.ops.push(res);
        f.pc = pc1;
        inst.frames.push(f);
        proof {
            assert(f.ops@ =~= fv.ops.drop_last().push(res));
            if s0.mem.len() + delta * PAGE_SIZE <= s0.mem_max_pages * PAGE_SIZE {
                let oldpages = ((s0.mem.len() as int) / (PAGE_SIZE as int)) as u64;
                let grown = s0.mem + Seq::new((delta * PAGE_SIZE) as nat, |q: int| 0u8);
                assert(res == oldpages);
                assert(inst.mem@ =~= grown);
                let f2 = top_at(s0, fv.pc + 1, fv.ops.drop_last().push(oldpages));
                assert(inst.frames@ == old(inst).frames@.push(f));
                lemma_frames_model_push(old(inst).frames@, f);
                assert(f@ =~= f2);
                assert(s0.frames.drop_last().push(f2) =~= s0.frames.update(
                    s0.frames.len() - 1,
                    f2,
                ));
                assert(frames_model(inst.frames@) =~= s0.frames.update(
                    s0.frames.len() - 1,
                    f2,
                ));
                assert(inst@ =~= InstanceV {
                    mem: grown,
                    mem_max_pages: s0.mem_max_pages,
                    frames: s0.frames.update(s0.frames.len() - 1, f2),
                });
            } else {
                assert(res == GROW_FAIL);
                assert(inst.mem@ == s0.mem);
                lemma_push_top(
                    s0,
                    inst@,
                    f@,
                    top_at(s0, fv.pc + 1, fv.ops.drop_last().push(GROW_FAIL)),
                );
            }
            assert(spec_instr_step(m@, s0, ins) == StepR::Next(inst@));
        }
        StepExec::Continue
    } else {
        let l = match f.ops.pop() {
            Some(v) => v,
            None => {
                return StepExec::Trapped(trap_e(TrapKind::StackViolation));
            },
        };
        let p = match f.ops.pop() {
            Some(v) => v,
            None => {
                return StepExec::Trapped(trap_e(TrapKind::StackViolation));
            },
        };
        proof {
            assert(fv.ops.len() >= 2);
            assert(l == fv.ops.last());
            assert(p == fv.ops.drop_last().last());
            assert(p == fv.ops[fv.ops.len() - 2]);
        }
        let msg = match inst.mem.read_bytes(p, l) {
            Some(v) => v,
            None => Vec::new(),
        };
        let t = Trap { kind: TrapKind::ExplicitAbort, msg };
        proof {
            let msgv = if p + l <= s0.mem.len() {
                s0.mem.subrange(p as int, p + l)
            } else {
                Seq::<u8>::empty()
            };
            assert(t@ =~= TrapV { kind: TrapKind::ExplicitAbort, msg: msgv });
        }
        StepExec::Trapped(t)
    }
}

fn step_load_ins(
    m: &Module,
    inst: &mut Instance,
    f: Frame,
    ins: Instr,
    Ghost(s0): Ghost<InstanceV>,
) -> (r: StepExec)
    requires
        module_wf(m@),
        inst_wf(m@, s0),
        s0.frames.len() >= 1,
        old(inst).mem.wf(),
        old(inst)@.mem == s0.mem,
        old(inst)@.mem_max_pages == s0.mem_max_pages,
        frames_model(old(inst).frames@) == s0.frames.drop_last(),
        f@ == s0.frames.last(),
        is_load_ins(ins),
        s0.frames.last().pc < m@.funcs[s0.frames.last().func as int].code.len(),
    ensures
        final(inst).mem.wf(),
        match r {
            StepExec::Continue => spec_instr_step(m@, s0, ins) == StepR::Next(final(inst)@)
                && inst_wf(m@, final(inst)@) && final(inst)@.frames.len() >= 1,
            StepExec::Trapped(t) => spec_instr_step(m@, s0, ins) == StepR::Trap(t@),
            StepExec::Finished(vs) => spec_instr_step(m@, s0, ins) == StepR::Done(vs@, final(inst)@.mem),
        },
{
    proof {
        assert(frames_model(old(inst).frames@).len() == old(inst).frames@.len());
        assert(old(inst).frames@.len() + 1 == s0.frames.len());
    }
    let ghost fv = s0.frames.last();
    let mut f = f;
    // The code length bounds the program counter, so advancing it cannot
    // overflow.
    let code_len = m.funcs[f.func as usize].code.len();
    let pc1 = f.pc + 1;
    let a = match f.ops.pop() {
        Some(v) => v,
        None => {
            return StepExec::Trapped(trap_e(TrapKind::StackViolation));
        },
    };
    let loaded = match ins {
        Instr::Load8 => inst.mem.load8(a),
        Instr::Load16 => inst.mem.load16(a),
        Instr::Load32 => inst.mem.load32(a),
        Instr::Load64 => inst.mem.load64(a),
        _ => {
            assert(false);
            None
        },
    };
    match loaded {
        None => StepExec::Trapped(trap_e(TrapKind::MemoryOutOfBounds)),
        Some(v) => {
            f.ops.push(v);
            f.pc = pc1;
            inst.frames.push(f);
            proof {
                assert(f.ops@ =~= fv.ops.drop_last().push(v));
                lemma_push_top(s0, inst@, f@, top_at(s0, fv.pc + 1, f.ops@));
            }
            StepExec::Continue
        },
    }
}

fn step_store_ins(
    m: &Module,
    inst: &mut Instance,
    f: Frame,
    ins: Instr,
    Ghost(s0): Ghost<InstanceV>,
) -> (r: StepExec)
    requires
        module_wf(m@),
        inst_wf(m@, s0),
        s0.frames.len() >= 1,
        old(inst).mem.wf(),
        old(inst)@.mem == s0.mem,
        old(inst)@.mem_max_pages == s0.mem_max_pages,
        frames_model(old(inst).frames@) == s0.frames.drop_last(),
        f@ == s0.frames.last(),
        is_store_ins(ins),
        s0.frames.last().pc < m@.funcs[s0.frames.last().func as int].code.len(),
    ensures
        final(inst).mem.wf(),
        match r {
            StepExec::Continue => spec_instr_step(m@, s0, ins) == StepR::Next(final(inst)@)
                && inst_wf(m@, final(inst)@) && final(inst)@.frames.len() >= 1,
            StepExec::Trapped(t) => spec_instr_step(m@, s0, ins) == StepR::Trap(t@),
            StepExec::Finished(vs) => spec_instr_step(m@, s0, ins) == StepR::Done(vs@, final(inst)@.mem),
        },
{
    proof {
        assert(frames_model(old(inst).frames@).len() == old(inst).frames@.len());
        assert(old(inst).frames@.len() + 1 == s0.frames.len());
    }
    let ghost fv = s0.frames.last();
    let mut f = f;
    // The code length bounds the program counter, so advancing it cannot
    // overflow.
    let code_len = m.funcs[f.func as usize].code.len();
    let pc1 = f.pc + 1;
    let v = match f.ops.pop() {
        Some(v) => v,
        None => {
            return StepExec::Trapped(trap_e(TrapKind::StackViolation));
        },
    };
    let a = match f.ops.pop() {
        Some(v) => v,
        None => {
            return StepExec::Trapped(trap_e(TrapKind::StackViolation));
        },
    };
    proof {
        assert(v == fv.ops.last() && a == fv.ops[fv.ops.len() - 2]);
    }
    let ok = match ins {
        Instr::Store8 => inst.mem.store8(a, v),
        Instr::Store16 => inst.mem.store16(a, v),
        Instr::Store32 => inst.mem.store32(a, v),
        Instr::Store64 => inst.mem.store64(a, v),
        _ => {
            assert(false);
            false
        },
    };
    if !ok {
        return StepExec::Trapped(trap_e(TrapKind::MemoryOutOfBounds));
    }
    f.pc = pc1;
    inst.frames.push(f);
    proof {
        let bs: Seq<u8> = match ins {
            Instr::Store8 => seq![(v & 0xff) as u8],
            Instr::Store16 => le16((v & 0xffff) as u16),
            Instr::Store32 => le32((v & 0xffff_ffff) as u32),
            _ => le64(v),
        };
        lemma_store_top(
            s0,
            inst@,
            f@,
            top_at(s0, fv.pc + 1, fv.ops.drop_last().drop_last()),
            store_bytes(s0.mem, a as int, bs),
        );
        assert(spec_instr_step(m@, s0, ins) == StepR::Next(inst@));
    }
    StepExec::Continue
}

fn step_ret_path(m: &Module, inst: &mut Instance, f: Frame, Ghost(s0): Ghost<InstanceV>) -> (r:
    StepExec)
    requires
        module_wf(m@),
        inst_wf(m@, s0),
        s0.frames.len() >= 1,
        old(inst).mem.wf(),
        old(inst)@.mem == s0.mem,
        old(inst)@.mem_max_pages == s0.mem_max_pages,
        frames_model(old(inst).frames@) == s0.frames.drop_last(),
        f@ == s0.frames.last(),
    ensures
        final(inst).mem.wf(),
        match r {
            StepExec::Continue => spec_ret(m@, s0) == StepR::Next(final(inst)@) && inst_wf(
                m@,
                final(inst)@,
            ) && final(inst)@.frames.len() >= 1,
            StepExec::Trapped(t) => spec_ret(m@, s0) == StepR::Trap(t@),
            StepExec::Finished(vs) => spec_ret(m@, s0) == StepR::Done(vs@, final(inst)@.mem),
        },
{
    proof {
        assert(frames_model(old(inst).frames@).len() == old(inst).frames@.len());
        assert(old(inst).frames@.len() + 1 == s0.frames.len());
    }
    let ghost fv = s0.frames.last();
    let mut f = f;
    let fb = &m.funcs[f.func as usize];
    let nres = m.types[fb.ty as usize].results as usize;
    if f.ops.len() < nres {
        return StepExec::Trapped(trap_e(TrapKind::SignatureMismatch));
    }
    let vals = split_off_tail(&mut f.ops, nres);
    if inst.frames.len() == 0 {
        proof {
            assert(s0.frames.len() == 1);
            assert(spec_ret(m@, s0) == StepR::Done(vals@, inst@.mem));
        }
        return StepExec::Finished(vals);
    }
    let mut caller = match inst.frames.pop() {
        Some(c) => c,
        None => {
            assert(false);
            return StepExec::Continue;
        },
    };
    proof {
        assert(caller@ == s0.frames.drop_last().last());
        assert(caller@ == s0.frames[s0.frames.len() - 2]);
    }
    let ghost caller0 = caller@;
    let mut vi: usize = 0;
    while vi < vals.len()
        invariant
            vi <= vals@.len(),
            caller.ops@ == caller0.ops + vals@.take(vi as int),
            caller@.func == caller0.func && caller@.pc == caller0.pc && caller@.locals
                == caller0.locals,
        decreases vals@.len() - vi,
    {
        caller.ops.push(vals[vi]);
        proof {
            assert(caller.ops@ =~= caller0.ops + vals@.take(vi + 1));
        }
        vi += 1;
    }
    proof {
        assert(vals@.take(vals@.len() as int) =~= vals@);
    }
    inst.frames.push(caller);
    proof {
        let caller2 = FrameV {
            func: caller0.func,
            pc: caller0.pc,
            locals: caller0.locals,
            ops: caller0.ops + vals@,
        };
        assert(caller@ =~= caller2);
        assert(frames_model(inst.frames@) =~= s0.frames.drop_last().update(
            s0.frames.len() - 2,
            caller2,
        ));
        assert(inst@ =~= InstanceV {
            mem: s0.mem,
            mem_max_pages: s0.mem_max_pages,
            frames: s0.frames.drop_last().update(s0.frames.len() - 2, caller2),
        });
        assert(spec_ret(m@, s0) == StepR::Next(inst@));
    }
    StepExec::Continue
}

/// Executes exactly one step of the semantics on `inst`.
pub fn step(m: &Module, inst: &mut Instance) -> (r: StepExec)
    requires
        module_wf(m@),
        inst_wf(m@, old(inst)@),
        old(inst).mem.wf(),
        old(inst)@.frames.len() >= 1,
    ensures
        final(inst).mem.wf(),
        match r {
            StepExec::Continue => spec_step(m@, old(inst)@) == StepR::Next(final(inst)@)
                && inst_wf(m@, final(inst)@) && final(inst)@.frames.len() >= 1,
            StepExec::Trapped(t) => spec_step(m@, old(inst)@) == StepR::Trap(t@),
            StepExec::Finished(vs) => spec_step(m@, old(inst)@) == StepR::Done(vs@, final(inst)@.mem),
        },
{
    let ghost s0 = inst@;
    let ghost fv = s0.frames.last();
    let f = match inst.frames.pop() {
        Some(f) => f,
        None => {
            assert(false);
            return StepExec::Continue;
        },
    };
    proof {
        assert(f@ == fv);
        assert(frames_model(inst.frames@) =~= s0.frames.drop_last());
        assert(frame_wf(m@, fv));
        assert(crate::module::body_wf(
            m@.types,
            m@.funcs[fv.func as int],
            m@.funcs.len() as int,
        ));
    }
    let fb = &m.funcs[f.func as usize];
    let code_len = fb.code.len();
    let ghost bv = m@.funcs[fv.func as int];
    let is_ret = if f.pc == code_len {
        true
    } else {
        match fb.code[f.pc] {
            Instr::Ret => true,
            _ => false,
        }
    };
    if is_ret {
        proof {
            assert(spec_step(m@, s0) == spec_ret(m@, s0));
        }
        return step_ret_path(m, inst, f, Ghost(s0));
    }
    let ins = fb.code[f.pc];
    proof {
        assert(ins == bv.code[fv.pc]);
        assert(crate::module::instr_wf(
            ins,
            frame_size(m@.types, bv),
            bv.code.len() as int,
            m@.funcs.len() as int,
        ));
        assert(spec_step(m@, s0) == spec_instr_step(m@, s0, ins));
    }
    match ins {
        Instr::Nop | Instr::Const(_) | Instr::LocalGet(_) | Instr::LocalSet(_) | Instr::Drop
            | Instr::Jump(_) | Instr::BrIf(_) => step_frame_ins(m, inst, f, ins, Ghost(s0)),
        Instr::Call(_) => step_call_ins(m, inst, f, ins, Ghost(s0)),
        Instr::HostCall(_) => step_host_ins(m, inst, f, ins, Ghost(s0)),
        Instr::Load8 | Instr::Load16 | Instr::Load32 | Instr::Load64 => step_load_ins(
            m,
            inst,
            f,
            ins,
            Ghost(s0),
        ),
        Instr::Store8 | Instr::Store16 | Instr::Store32 | Instr::Store64 => step_store_ins(
            m,
            inst,
            f,
            ins,
            Ghost(s0),
        ),
        _ => step_arith_ins(m, inst, f, ins, Ghost(s0)),
    }
}


/// Pushing a frame appends its model.
proof fn lemma_frames_model_push(fs: Seq<Frame>, f: Frame)
    ensures
        frames_model(fs.push(f)) =~= frames_model(fs).push(f@),
{
}

/// After popping the top frame, modifying it and pushing it back, the
/// frame stack is the original with its top replaced.
proof fn lemma_push_top(s0: InstanceV, s1: InstanceV, fnew: FrameV, expect: FrameV)
    requires
        s0.frames.len() >= 1,
        fnew == expect,
        s1.frames =~= s0.frames.drop_last().push(fnew),
        s1.mem == s0.mem,
        s1.mem_max_pages == s0.mem_max_pages,
    ensures
        s1 == with_top(s0, expect),
{
    assert(s0.frames.drop_last().push(fnew) =~= s0.frames.update(s0.frames.len() - 1, fnew));
    assert(s1 =~= with_top(s0, expect));
}

/// The same, when the memory was also rewritten by a store.
proof fn lemma_store_top(
    s0: InstanceV,
    s1: InstanceV,
    fnew: FrameV,
    expect: FrameV,
    mem2: Seq<u8>,
)
    requires
        s0.frames.len() >= 1,
        fnew == expect,
        s1.frames =~= s0.frames.drop_last().push(fnew),
        s1.mem == mem2,
        s1.mem_max_pages == s0.mem_max_pages,
    ensures
        s1 == (InstanceV {
            mem: mem2,
            mem_max_pages: s0.mem_max_pages,
            frames: s0.frames.update(s0.frames.len() - 1, expect),
        }),
{
    assert(s0.frames.drop_last().push(fnew) =~= s0.frames.update(s0.frames.len() - 1, fnew));
    assert(s1 =~= InstanceV {
        mem: mem2,
        mem_max_pages: s0.mem_max_pages,
        frames: s0.frames.update(s0.frames.len() - 1, expect),
    });
}

/// What a whole run came to.
pub enum RunExec {
    Trapped(Trap),
    Finished(Vec<u64>),
    OutOfSteps,
}

/// Runs the instance until the entry call returns, traps, or the step
/// budget is spent.  The outcome is exactly what the iterated semantics
/// `spec_run_n` reaches from the starting state.
#[verifier::loop_isolation(false)]
pub fn run(m: &Module, inst: &mut Instance, budget: u64) -> (r: RunExec)
    requires
        module_wf(m@),
        inst_wf(m@, old(inst)@),
        old(inst).mem.wf(),
        old(inst)@.frames.len() >= 1,
    ensures
        match r {
            RunExec::Trapped(t) => exists|n: nat|
                n <= budget && spec_run_n(m@, old(inst)@, n) == StepR::Trap(t@),
            RunExec::Finished(vs) => exists|n: nat|
                n <= budget && spec_run_n(m@, old(inst)@, n) == StepR::Done(
                    vs@,
                    final(inst)@.mem,
                ),
            RunExec::OutOfSteps => spec_run_n(m@, old(inst)@, budget as nat) is Next,
        },
{
    let ghost s0 = inst@;
    let mut used: u64 = 0;
    while used < budget
        invariant
            used <= budget,
            module_wf(m@),
            inst_wf(m@, inst@),
            inst.mem.wf(),
            inst@.frames.len() >= 1,
            spec_run_n(m@, s0, used as nat) == StepR::Next(inst@),
        decreases budget - used,
    {
        let ghost pre = inst@;
        match step(m, inst) {
            StepExec::Continue => {
                used += 1;
                proof {
                    assert(spec_run_n(m@, s0, used as nat) == spec_step(m@, pre));
                }
            },
            StepExec::Trapped(t) => {
                proof {
                    assert(spec_run_n(m@, s0, (used + 1) as nat) == StepR::Trap(t@));
                }
                return RunExec::Trapped(t);
            },
            StepExec::Finished(vs) => {
                proof {
                    assert(spec_run_n(m@, s0, (used + 1) as nat) == StepR::Done(
                        vs@,
                        inst@.mem,
                    ));
                }
                return RunExec::Finished(vs);
            },
        }
    }
    RunExec::OutOfSteps
}

} // verus!
