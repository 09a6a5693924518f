//! The dispatch layer: maps an (entry kind, entry name) pair to the
//! exported function with that name, builds a fresh `Instance` for the
//! call, writes the input buffers into its memory, runs the interpreter,
//! and reads the result buffer back out.  Every abnormal outcome — an
//! absent entry point, a trap, an output buffer outside memory — comes
//! back as a `Diagnostic`; nothing escapes as a host-level fault.

use vstd::prelude::*;

use crate::interp::{
    frames_model, inst_wf, run, spec_run_n, FrameV, Instance, InstanceV, RunExec, StepR,
    TrapKind, TrapV,
};
use crate::memory::{store_bytes, Memory, GROW_FAIL};
use crate::module::{has_entry, module_wf, EntryKind, Module, ModuleV, MAX_PAGES, PAGE_SIZE};
use crate::parse::MalformedModule;
use crate::token::Span;

verus! {

/// How many interpreter steps one dispatched call may take before it is
/// abandoned: execution is synchronous and no call is interrupted
/// mid-instruction, so a runaway guest ends with a budget diagnostic.
pub const STEP_BUDGET: u64 = 0x1000_0000;

/// What a failed macro invocation reports.  The `detail` bytes carry the
/// message a guest abort left in its memory; for other kinds they are
/// empty.
#[derive(Clone, Copy, PartialEq, Eq, Structural, Debug)]
pub enum DiagKind {
    /// No export of the requested kind and name: a build inconsistency
    /// between facade and module.
    UnknownEntryPoint,
    /// The export does not follow the calling convention.
    BadEntrySignature,
    /// The input buffers do not fit under the module's memory ceiling.
    InputTooLarge,
    /// The guest trapped.
    GuestTrap(TrapKind),
    /// The guest did not finish within the step budget.
    StepBudgetExhausted,
    /// The guest's result buffer lies outside its memory, or its result
    /// bytes are not a valid output.
    MalformedOutput,
    /// The blob behind the facade is not a well-formed module; cached and
    /// re-surfaced on every call.
    MalformedModule,
    /// An input stream is outside the supported grammar (a piece of text
    /// too long for its length prefix).
    OversizedInput,
    /// The guest finished and reported an error of its own, with a
    /// message and an optional source span.
    GuestError,
}

/// What a failed invocation surfaces: what went wrong, the guest's own
/// message when there is one, an optional source span to attribute the
/// failure to, and — for a malformed blob — the parse failure itself,
/// naming the offending section and byte offset.
pub struct Diagnostic {
    pub kind: DiagKind,
    pub detail: Vec<u8>,
    pub span: Option<Span>,
    pub module_error: Option<MalformedModule>,
}

/// How many input buffers an entry kind passes: one for function-style
/// entries, two (arguments, target item) for attribute- and derive-style
/// entries.
pub open spec fn entry_arity(kind: EntryKind) -> int {
    match kind {
        EntryKind::Function => 1,
        EntryKind::Attribute => 2,
        EntryKind::Derive => 2,
    }
}

/// The models of a list of byte buffers.
pub open spec fn bufs_model(bs: Seq<Vec<u8>>) -> Seq<Seq<u8>> {
    Seq::new(bs.len(), |i: int| bs[i]@)
}

/// The total length of a list of buffers.
pub open spec fn total_len(bufs: Seq<Seq<u8>>) -> int
    decreases bufs.len(),
{
    if bufs.len() == 0 {
        0
    } else {
        bufs[0].len() + total_len(bufs.drop_first())
    }
}

/// A zeroed memory of `pages` pages.
pub open spec fn zero_mem(pages: int) -> Seq<u8> {
    Seq::new((pages * PAGE_SIZE) as nat, |i: int| 0u8)
}

/// How many whole pages cover `total` bytes.
pub open spec fn ceil_pages(total: int) -> int {
    total / (PAGE_SIZE as int) + if total % (PAGE_SIZE as int) == 0 {
        0int
    } else {
        1int
    }
}

/// `mem` with the buffers written one after another starting at `base`.
pub open spec fn place_bufs(mem: Seq<u8>, base: int, bufs: Seq<Seq<u8>>) -> Seq<u8>
    decreases bufs.len(),
{
    if bufs.len() == 0 {
        mem
    } else {
        place_bufs(store_bytes(mem, base, bufs[0]), base + bufs[0].len(), bufs.drop_first())
    }
}

/// The argument values the entry function receives: an address and a
/// length for each input buffer, in order.
pub open spec fn buf_args(base: int, bufs: Seq<Seq<u8>>) -> Seq<u64>
    decreases bufs.len(),
{
    if bufs.len() == 0 {
        Seq::empty()
    } else {
        seq![base as u64, bufs[0].len() as u64] + buf_args(base + bufs[0].len(),
        bufs.drop_first())
    }
}

/// The state a dispatched call starts in: the module's initial memory
/// grown by just enough pages to hold the input buffers, the buffers
/// written beyond the initial pages, and one frame at the start of the
/// entry function, its parameters the buffers' addresses and lengths.
pub open spec fn start_state(m: ModuleV, fi: u32, bufs: Seq<Seq<u8>>) -> InstanceV {
    let base = m.mem_initial * PAGE_SIZE;
    let pages = m.mem_initial + ceil_pages(total_len(bufs));
    let fb = m.funcs[fi as int];
    InstanceV {
        mem: place_bufs(zero_mem(pages), base, bufs),
        mem_max_pages: m.mem_max,
        frames: seq![
            FrameV {
                func: fi,
                pc: 0,
                locals: buf_args(base, bufs) + Seq::new(fb.locals as nat, |q: int| 0u64),
                ops: Seq::empty(),
            },
        ],
    }
}

/// One witness that a dispatch returned honestly: export row `i` is the
/// requested entry point, and an interpreter run of `n` steps from the
/// call's start state finished with result values `vals` and memory
/// `memf`, from which `out` is the result buffer.
pub open spec fn dispatch_ok(
    m: ModuleV,
    kind: EntryKind,
    name: Seq<u8>,
    bufs: Seq<Seq<u8>>,
    out: Seq<u8>,
    i: int,
    n: nat,
    vals: Seq<u64>,
    memf: Seq<u8>,
) -> bool {
    &&& 0 <= i < m.exports.len()
    &&& m.exports[i].kind == kind
    &&& m.exports[i].name == name
    &&& n <= STEP_BUDGET
    &&& spec_run_n(m, start_state(m, m.exports[i].func, bufs), n) == StepR::Done(vals, memf)
    &&& vals.len() == 2
    &&& vals[0] + vals[1] <= memf.len()
    &&& out == memf.subrange(vals[0] as int, vals[0] + vals[1])
}

/// A trap diagnostic is a trap the semantics produced: some export row is
/// the entry point, and an interpreter run from the call's start state
/// trapped with this kind and message within the step budget.
pub open spec fn dispatch_trap(
    m: ModuleV,
    kind: EntryKind,
    name: Seq<u8>,
    bufs: Seq<Seq<u8>>,
    k: TrapKind,
    msg: Seq<u8>,
) -> bool {
    exists|i: int, n: nat|
        {
            &&& 0 <= i < m.exports.len()
            &&& m.exports[i].kind == kind
            &&& m.exports[i].name == name
            &&& n <= STEP_BUDGET
            &&& #[trigger] spec_run_n(m, start_state(m, m.exports[i].func, bufs), n)
                == StepR::Trap(TrapV { kind: k, msg })
        }
}

/// A budget diagnostic is honest: the semantics is still running after
/// the whole step budget from the call's start state.
pub open spec fn dispatch_exhausted(
    m: ModuleV,
    kind: EntryKind,
    name: Seq<u8>,
    bufs: Seq<Seq<u8>>,
) -> bool {
    exists|i: int|
        {
            &&& 0 <= i < m.exports.len()
            &&& (#[trigger] m.exports[i]).kind == kind
            &&& m.exports[i].name == name
            &&& spec_run_n(m, start_state(m, m.exports[i].func, bufs), STEP_BUDGET as nat)
                is Next
        }
}

proof fn lemma_dispatch_trap_witness(
    m: ModuleV,
    kind: EntryKind,
    name: Seq<u8>,
    bufs: Seq<Seq<u8>>,
    k: TrapKind,
    msg: Seq<u8>,
    i: int,
    n: nat,
)
    requires
        0 <= i < m.exports.len(),
        m.exports[i].kind == kind,
        m.exports[i].name == name,
        n <= STEP_BUDGET,
        spec_run_n(m, start_state(m, m.exports[i].func, bufs), n) == StepR::Trap(
            TrapV { kind: k, msg },
        ),
    ensures
        dispatch_trap(m, kind, name, bufs, k, msg),
{
    assert(exists|i2: int, n2: nat|
        {
            &&& 0 <= i2 < m.exports.len()
            &&& m.exports[i2].kind == kind
            &&& m.exports[i2].name == name
            &&& n2 <= STEP_BUDGET
            &&& #[trigger] spec_run_n(m, start_state(m, m.exports[i2].func, bufs), n2)
                == StepR::Trap(TrapV { kind: k, msg })
        });
}

proof fn lemma_dispatch_exhausted_witness(
    m: ModuleV,
    kind: EntryKind,
    name: Seq<u8>,
    bufs: Seq<Seq<u8>>,
    i: int,
)
    requires
        0 <= i < m.exports.len(),
        m.exports[i].kind == kind,
        m.exports[i].name == name,
        spec_run_n(m, start_state(m, m.exports[i].func, bufs), STEP_BUDGET as nat) is Next,
    ensures
        dispatch_exhausted(m, kind, name, bufs),
{
    assert(exists|i2: int|
        {
            &&& 0 <= i2 < m.exports.len()
            &&& (#[trigger] m.exports[i2]).kind == kind
            &&& m.exports[i2].name == name
            &&& spec_run_n(m, start_state(m, m.exports[i2].func, bufs), STEP_BUDGET as nat)
                is Next
        });
}

/// Export row `i` is the requested entry point.
pub open spec fn entry_row(m: ModuleV, i: int, kind: EntryKind, name: Seq<u8>) -> bool {
    &&& 0 <= i < m.exports.len()
    &&& m.exports[i].kind == kind
    &&& m.exports[i].name == name
}

/// The entry's function follows the calling convention: two parameters
/// per input buffer (an address and a length each), two results (the
/// result buffer's address and length).
pub open spec fn entry_sig_ok(m: ModuleV, i: int, kind: EntryKind) -> bool {
    let t = m.types[m.funcs[m.exports[i].func as int].ty as int];
    &&& t.params == 2 * entry_arity(kind)
    &&& t.results == 2
}

/// The export table has a row for this entry that follows the calling
/// convention.
pub open spec fn callable_entry(m: ModuleV, kind: EntryKind, name: Seq<u8>) -> bool {
    exists|i: int| #[trigger] entry_row(m, i, kind, name) && entry_sig_ok(m, i, kind)
}

/// The input buffers fit under the module's memory ceiling: each fits
/// the page space at all, and the pages they need stay under `mem_max`.
pub open spec fn inputs_fit(m: ModuleV, bufs: Seq<Seq<u8>>) -> bool {
    &&& forall|k: int|
        0 <= k < bufs.len() ==> (#[trigger] bufs[k]).len() <= (MAX_PAGES as int) * (
        PAGE_SIZE as int)
    &&& ceil_pages(total_len(bufs)) <= MAX_PAGES
    &&& m.mem_initial + ceil_pages(total_len(bufs)) <= m.mem_max
}

/// The run from export row `i`'s start state finishes within the step
/// budget with result values that follow the convention: an address and
/// a length describing a buffer inside the final memory.
pub open spec fn run_completes(
    m: ModuleV,
    i: int,
    bufs: Seq<Seq<u8>>,
    n: nat,
    vals: Seq<u64>,
    memf: Seq<u8>,
) -> bool {
    &&& n <= STEP_BUDGET
    &&& spec_run_n(m, start_state(m, m.exports[i].func, bufs), n) == StepR::Done(vals, memf)
    &&& vals.len() == 2
    &&& vals[0] + vals[1] <= memf.len()
}

/// The call's guest work succeeds: the entry exists, follows the
/// convention, and its run finishes with a valid result buffer.
pub open spec fn call_completes(m: ModuleV, kind: EntryKind, name: Seq<u8>, bufs: Seq<
    Seq<u8>,
>) -> bool {
    exists|i: int, n: nat, vals: Seq<u64>, memf: Seq<u8>|
        {
            &&& entry_row(m, i, kind, name)
            &&& entry_sig_ok(m, i, kind)
            &&& #[trigger] run_completes(m, i, bufs, n, vals, memf)
        }
}

/// The run from export row `i`'s start state finishes within the budget,
/// but its result values do not follow the convention: the wrong count,
/// or a buffer outside the final memory.
pub open spec fn run_miscompletes(
    m: ModuleV,
    i: int,
    bufs: Seq<Seq<u8>>,
    n: nat,
    vals: Seq<u64>,
    memf: Seq<u8>,
) -> bool {
    &&& n <= STEP_BUDGET
    &&& spec_run_n(m, start_state(m, m.exports[i].func, bufs), n) == StepR::Done(vals, memf)
    &&& !(vals.len() == 2 && vals[0] + vals[1] <= memf.len())
}

/// The entry's run finishes within the budget with an invalid result.
pub open spec fn dispatch_bad_output(m: ModuleV, kind: EntryKind, name: Seq<u8>, bufs: Seq<
    Seq<u8>,
>) -> bool {
    exists|i: int, n: nat, vals: Seq<u64>, memf: Seq<u8>|
        {
            &&& entry_row(m, i, kind, name)
            &&& #[trigger] run_miscompletes(m, i, bufs, n, vals, memf)
        }
}

/// Export names are unique in a well-formed module, so at most one row
/// carries a given name.
pub proof fn lemma_entry_unique(m: ModuleV, name: Seq<u8>, i: int, j: int)
    requires
        module_wf(m),
        0 <= i < m.exports.len(),
        0 <= j < m.exports.len(),
        m.exports[i].name == name,
        m.exports[j].name == name,
    ensures
        i == j,
{
    if i < j {
        assert(m.exports[i].name != m.exports[j].name);
    }
    if j < i {
        assert(m.exports[j].name != m.exports[i].name);
    }
}

/// A dispatch has at most one output: any two witnesses name the same
/// result buffer, because the entry row is unique and the semantics
/// reaches at most one outcome.
pub proof fn lemma_dispatch_output_unique(
    m: ModuleV,
    kind: EntryKind,
    name: Seq<u8>,
    bufs: Seq<Seq<u8>>,
    out1: Seq<u8>,
    out2: Seq<u8>,
)
    requires
        module_wf(m),
        dispatch_output(m, kind, name, bufs, out1),
        dispatch_output(m, kind, name, bufs, out2),
    ensures
        out1 == out2,
{
    let (i1, n1, v1, mf1): (int, nat, Seq<u64>, Seq<u8>) = choose|
        i: int,
        n: nat,
        vals: Seq<u64>,
        memf: Seq<u8>,
    | dispatch_ok(m, kind, name, bufs, out1, i, n, vals, memf);
    let (i2, n2, v2, mf2): (int, nat, Seq<u64>, Seq<u8>) = choose|
        i: int,
        n: nat,
        vals: Seq<u64>,
        memf: Seq<u8>,
    | dispatch_ok(m, kind, name, bufs, out2, i, n, vals, memf);
    lemma_entry_unique(m, name, i1, i2);
    crate::interp::lemma_run_outcome_unique(
        m,
        start_state(m, m.exports[i1].func, bufs),
        n1,
        n2,
    );
}

/// A dispatch that produced an output excludes every other outcome: the
/// run neither trapped, nor overran the budget, nor mis-completed.
pub proof fn lemma_output_excludes_others(
    m: ModuleV,
    kind: EntryKind,
    name: Seq<u8>,
    bufs: Seq<Seq<u8>>,
    outb: Seq<u8>,
)
    requires
        module_wf(m),
        dispatch_output(m, kind, name, bufs, outb),
    ensures
        !dispatch_bad_output(m, kind, name, bufs),
        !dispatch_exhausted(m, kind, name, bufs),
        forall|k: TrapKind, msg: Seq<u8>| !(#[trigger] dispatch_trap(m, kind, name, bufs, k, msg)),
{
    let (i1, n1, v1, mf1): (int, nat, Seq<u64>, Seq<u8>) = choose|
        i: int,
        n: nat,
        vals: Seq<u64>,
        memf: Seq<u8>,
    | dispatch_ok(m, kind, name, bufs, outb, i, n, vals, memf);
    let st = start_state(m, m.exports[i1].func, bufs);
    if dispatch_bad_output(m, kind, name, bufs) {
        let (i2, n2, v2, mf2): (int, nat, Seq<u64>, Seq<u8>) = choose|
            i: int,
            n: nat,
            vals: Seq<u64>,
            memf: Seq<u8>,
        |
            {
                &&& entry_row(m, i, kind, name)
                &&& #[trigger] run_miscompletes(m, i, bufs, n, vals, memf)
            };
        lemma_entry_unique(m, name, i1, i2);
        crate::interp::lemma_run_outcome_unique(m, st, n1, n2);
        assert(false);
    }
    if dispatch_exhausted(m, kind, name, bufs) {
        let i3: int = choose|i: int|
            {
                &&& 0 <= i < m.exports.len()
                &&& (#[trigger] m.exports[i]).kind == kind
                &&& m.exports[i].name == name
                &&& spec_run_n(m, start_state(m, m.exports[i].func, bufs), STEP_BUDGET as nat)
                    is Next
            };
        lemma_entry_unique(m, name, i1, i3);
        crate::interp::lemma_spec_run_n_stable(m, st, n1, STEP_BUDGET as nat);
        assert(false);
    }
    assert forall|k: TrapKind, msg: Seq<u8>| !(#[trigger] dispatch_trap(
        m,
        kind,
        name,
        bufs,
        k,
        msg,
    )) by {
        if dispatch_trap(m, kind, name, bufs, k, msg) {
            let (i4, n4): (int, nat) = choose|i: int, n: nat|
                {
                    &&& 0 <= i < m.exports.len()
                    &&& m.exports[i].kind == kind
                    &&& m.exports[i].name == name
                    &&& n <= STEP_BUDGET
                    &&& #[trigger] spec_run_n(m, start_state(m, m.exports[i].func, bufs), n)
                        == StepR::Trap(TrapV { kind: k, msg })
                };
            lemma_entry_unique(m, name, i1, i4);
            crate::interp::lemma_run_outcome_unique(m, st, n1, n4);
            assert(false);
        }
    }
}

/// The `Ok` bytes of a dispatch are a result the semantics produced:
/// some export row is the entry point, and some interpreter run from the
/// call's start state finished with a result buffer equal to them.
pub open spec fn dispatch_output(
    m: ModuleV,
    kind: EntryKind,
    name: Seq<u8>,
    bufs: Seq<Seq<u8>>,
    out: Seq<u8>,
) -> bool {
    exists|i: int, n: nat, vals: Seq<u64>, memf: Seq<u8>|
        #[trigger] dispatch_ok(m, kind, name, bufs, out, i, n, vals, memf)
}

proof fn lemma_dispatch_witness(
    m: ModuleV,
    kind: EntryKind,
    name: Seq<u8>,
    bufs: Seq<Seq<u8>>,
    out: Seq<u8>,
    i: int,
    n: nat,
    vals: Seq<u64>,
    memf: Seq<u8>,
)
    requires
        dispatch_ok(m, kind, name, bufs, out, i, n, vals, memf),
    ensures
        dispatch_output(m, kind, name, bufs, out),
{
    assert(exists|i2: int, n2: nat, v2: Seq<u64>, m2: Seq<u8>|
        #[trigger] dispatch_ok(m, kind, name, bufs, out, i2, n2, v2, m2));
}

/// Dispatches one macro invocation: looks the entry point up, marshals
/// the input buffers into a fresh instance, runs the guest function and
/// returns its result buffer.  The contract determines the outcome from
/// the semantics alone: `UnknownEntryPoint` exactly when no export
/// carries this kind and name, `BadEntrySignature` exactly when the
/// entry breaks the calling convention, `InputTooLarge` exactly when the
/// buffers cannot be placed under the memory ceiling; past those gates,
/// a run that finishes with a valid result buffer is owed `Ok` with that
/// buffer, a trap is owed its `GuestTrap` diagnostic with the trap's own
/// message, a run still going at the step budget is owed
/// `StepBudgetExhausted`, and an invalid result is owed
/// `MalformedOutput` — each error kind also backed in the reverse
/// direction.
#[verifier::loop_isolation(false)]
#[verifier::rlimit(100)]
#[verifier::spinoff_prover]
pub fn dispatch(m: &Module, kind: EntryKind, name: &Vec<u8>, inputs: &Vec<Vec<u8>>) -> (r:
    Result<Vec<u8>, Diagnostic>)
    requires
        module_wf(m@),
        inputs@.len() == entry_arity(kind),
    ensures
        (r matches Err(d) && d.kind == DiagKind::UnknownEntryPoint) <==> !has_entry(
            m@,
            kind,
            name@,
        ),
        (r matches Err(d) && d.kind == DiagKind::BadEntrySignature) <==> (exists|i: int|
            #[trigger] entry_row(m@, i, kind, name@) && !entry_sig_ok(m@, i, kind)),
        (r matches Err(d) && d.kind == DiagKind::InputTooLarge) <==> (callable_entry(
            m@,
            kind,
            name@,
        ) && !inputs_fit(m@, bufs_model(inputs@))),
        r matches Ok(out) ==> dispatch_output(m@, kind, name@, bufs_model(inputs@), out@),
        call_completes(m@, kind, name@, bufs_model(inputs@)) && inputs_fit(
            m@,
            bufs_model(inputs@),
        ) ==> r is Ok,
        forall|k: TrapKind, msg: Seq<u8>|
            callable_entry(m@, kind, name@) && inputs_fit(m@, bufs_model(inputs@))
                && #[trigger] dispatch_trap(m@, kind, name@, bufs_model(inputs@), k, msg) ==> (
            r matches Err(d) && d.kind == DiagKind::GuestTrap(k) && d.detail@ == msg),
        callable_entry(m@, kind, name@) && inputs_fit(m@, bufs_model(inputs@))
            && dispatch_exhausted(m@, kind, name@, bufs_model(inputs@)) ==> (r matches Err(d)
            && d.kind == DiagKind::StepBudgetExhausted),
        callable_entry(m@, kind, name@) && inputs_fit(m@, bufs_model(inputs@))
            && dispatch_bad_output(m@, kind, name@, bufs_model(inputs@)) ==> (r matches Err(d)
            && d.kind == DiagKind::MalformedOutput),
        r matches Err(d) ==> d.kind != DiagKind::MalformedModule && d.kind
            != DiagKind::OversizedInput && d.kind != DiagKind::GuestError,
        r matches Err(d) ==> match d.kind {
            DiagKind::GuestTrap(k) => dispatch_trap(
                m@,
                kind,
                name@,
                bufs_model(inputs@),
                k,
                d.detail@,
            ),
            DiagKind::StepBudgetExhausted => dispatch_exhausted(
                m@,
                kind,
                name@,
                bufs_model(inputs@),
            ),
            DiagKind::MalformedOutput => dispatch_bad_output(
                m@,
                kind,
                name@,
                bufs_model(inputs@),
            ),
            _ => true,
        },
{
    let ei = match m.find_export(kind, name) {
        Some(i) => i,
        None => {
            proof {
                assert forall|i: int| !(#[trigger] entry_row(m@, i, kind, name@)) by {
                    if entry_row(m@, i, kind, name@) {
                        assert(has_entry(m@, kind, name@));
                    }
                }
            }
            return Err(
                Diagnostic { kind: DiagKind::UnknownEntryPoint, detail: Vec::new(), span: None, module_error: None },
            );
        },
    };
    proof {
        assert(m@.exports[ei as int].kind == kind && m@.exports[ei as int].name == name@);
        assert(has_entry(m@, kind, name@));
        assert(m@.exports[ei as int].func < m@.funcs.len());
    }
    let fi = m.exports[ei].func;
    proof {
        assert(crate::module::body_wf(m@.types, m@.funcs[fi as int], m@.funcs.len() as int));
    }
    let ghost bufs = bufs_model(inputs@);
    // The entry function must follow the calling convention.
    let fb = &m.funcs[fi as usize];
    let ft = m.types[fb.ty as usize];
    let arity: usize = match kind {
        EntryKind::Function => 1,
        EntryKind::Attribute => 2,
        EntryKind::Derive => 2,
    };
    proof {
        assert(arity as int == entry_arity(kind));
        assert(entry_row(m@, ei as int, kind, name@));
        assert forall|j: int| #[trigger] entry_row(m@, j, kind, name@) implies j == ei as int by {
            lemma_entry_unique(m@, name@, j, ei as int);
        }
    }
    if !(ft.params as u64 == 2 * arity as u64 && ft.results == 2) {
        proof {
            assert(!entry_sig_ok(m@, ei as int, kind));
            assert(entry_row(m@, ei as int, kind, name@) && !entry_sig_ok(m@, ei as int, kind));
        }
        return Err(
            Diagnostic { kind: DiagKind::BadEntrySignature, detail: Vec::new(), span: None, module_error: None },
        );
    }
    proof {
        assert(entry_sig_ok(m@, ei as int, kind));
        assert(callable_entry(m@, kind, name@));
    }
    // Place the input buffers in pages grown past the initial memory.
    let cap: u64 = (MAX_PAGES as u64) * (PAGE_SIZE as u64);
    let mut total: u64 = 0;
    let mut i: usize = 0;
    proof {
        assert(bufs.take(0) =~= Seq::<Seq<u8>>::empty());
    }
    while i < inputs.len()
        invariant
            i <= inputs@.len(),
            inputs@.len() <= 2,
            cap == (MAX_PAGES as int) * (PAGE_SIZE as int),
            total == total_len(bufs.take(i as int)),
            total <= i * (cap as int),
            forall|k: int| 0 <= k < i ==> (#[trigger] bufs[k]).len() <= cap as int,
        decreases inputs@.len() - i,
    {
        let bl = inputs[i].len() as u64;
        if bl > cap {
            proof {
                assert(bufs[i as int] == inputs@[i as int]@);
                assert(bufs[i as int].len() > (MAX_PAGES as int) * (PAGE_SIZE as int));
                assert(!inputs_fit(m@, bufs));
            }
            return Err(
                Diagnostic { kind: DiagKind::InputTooLarge, detail: Vec::new(), span: None, module_error: None },
            );
        }
        proof {
            lemma_total_len_take(bufs, i as int);
        }
        total = total + bl;
        i += 1;
    }
    proof {
        assert(bufs.take(bufs.len() as int) =~= bufs);
    }
    let extra: u64 = total / (PAGE_SIZE as u64) + (if total % (PAGE_SIZE as u64) != 0 {
        1u64
    } else {
        0u64
    });
    proof {
        assert(extra == ceil_pages(total as int));
        assert(extra * PAGE_SIZE >= total) by (nonlinear_arith)
            requires
                extra == total as int / (PAGE_SIZE as int) + (if total as int % (PAGE_SIZE as int)
                    == 0 {
                    0int
                } else {
                    1int
                }),
                PAGE_SIZE > 0,
                total >= 0,
        ;
    }
    if extra > MAX_PAGES as u64 || m.mem_initial as u64 + extra > m.mem_max as u64 {
        proof {
            assert(!inputs_fit(m@, bufs));
        }
        return Err(Diagnostic { kind: DiagKind::InputTooLarge, detail: Vec::new(), span: None, module_error: None });
    }
    proof {
        assert(inputs_fit(m@, bufs));
    }
    let mut mem = Memory::new(m.mem_initial, m.mem_max);
    let grew = mem.grow(extra);
    proof {
        assert((m.mem_initial * PAGE_SIZE) as int + extra * PAGE_SIZE <= m.mem_max * PAGE_SIZE)
            by (nonlinear_arith)
            requires
                m.mem_initial as int + extra <= m.mem_max,
                PAGE_SIZE > 0,
        ;
    }
    proof {
        let pages = m@.mem_initial + ceil_pages(total_len(bufs));
        assert(ceil_pages(total_len(bufs)) == extra);
        assert(mem@.len() == pages * PAGE_SIZE) by (nonlinear_arith)
            requires
                mem@.len() == m.mem_initial * PAGE_SIZE + extra * PAGE_SIZE,
                pages == m.mem_initial as int + extra,
                PAGE_SIZE > 0,
        ;
        assert(mem@ =~= zero_mem(pages));
    }
    let base: u64 = m.mem_initial as u64 * PAGE_SIZE as u64;
    let ghost mem0 = mem@;
    let mut cur: u64 = base;
    let mut args: Vec<u64> = Vec::new();
    let mut i: usize = 0;
    proof {
        assert(bufs.skip(0) =~= bufs);
        assert(buf_args(base as int, bufs) == args@ + buf_args(cur as int, bufs.skip(i as int)));
        assert(total_len(bufs.take(0)) == 0);
    }
    while i < inputs.len()
        invariant
            i <= inputs@.len(),
            args@.len() == 2 * i,
            cur == base + total_len(bufs.take(i as int)),
            cur + total_len(bufs.skip(i as int)) <= mem@.len(),
            mem@.len() == mem0.len(),
            mem.wf(),
            mem.spec_max_pages() == m.mem_max,
            place_bufs(mem0, base as int, bufs) == place_bufs(
                mem@,
                cur as int,
                bufs.skip(i as int),
            ),
            buf_args(base as int, bufs) == args@ + buf_args(cur as int, bufs.skip(i as int)),
        decreases inputs@.len() - i,
    {
        let b = &inputs[i];
        proof {
            assert(bufs.skip(i as int)[0] == bufs[i as int]);
            assert(bufs.skip(i as int).drop_first() =~= bufs.skip(i + 1));
            lemma_total_len_take(bufs, i as int);
            lemma_total_len_nonneg(bufs.skip(i + 1));
        }
        let ok = mem.write_bytes(cur, b);
        assert(ok);
        args.push(cur);
        args.push(b.len() as u64);
        proof {
            assert(args@ =~= (args@.subrange(0, args@.len() - 2)) + seq![
                cur as u64,
                bufs[i as int].len() as u64,
            ]);
            assert(bufs.take(i + 1).drop_last() =~= bufs.take(i as int));
        }
        cur = cur + b.len() as u64;
        i += 1;
        proof {
            assert(buf_args(base as int, bufs) == args@ + buf_args(
                cur as int,
                bufs.skip(i as int),
            ));
        }
    }
    proof {
        assert(bufs.skip(inputs@.len() as int) =~= Seq::<Seq<u8>>::empty());
        assert(mem@ == place_bufs(mem0, base as int, bufs));
        assert(args@ == buf_args(base as int, bufs));
    }
    // The frame's locals: the buffer addresses and lengths, then the
    // entry function's scratch locals, zeroed.
    let mut locals = args;
    let n_extra = fb.locals as usize;
    let ghost argsv = locals@;
    let mut zi: usize = 0;
    while zi < n_extra
        invariant
            zi <= n_extra,
            locals@ =~= argsv + Seq::new(zi as nat, |q: int| 0u64),
        decreases n_extra - zi,
    {
        locals.push(0);
        proof {
            assert(locals@ =~= argsv + Seq::new((zi + 1) as nat, |q: int| 0u64));
        }
        zi += 1;
    }
    let frame = crate::interp::Frame { func: fi, pc: 0, locals, ops: Vec::new() };
    let mut frames: Vec<crate::interp::Frame> = Vec::new();
    frames.push(frame);
    let mut inst = Instance { mem, frames };
    let ghost st = start_state(m@, fi, bufs);
    proof {
        assert(frames_model(inst.frames@) =~= st.frames);
        assert(inst@ =~= st);
        assert(inst_wf(m@, inst@));
    }
    match run(m, &mut inst, STEP_BUDGET) {
        RunExec::Trapped(t) => {
            proof {
                let nt = choose|n: nat| n <= STEP_BUDGET && spec_run_n(m@, st, n) == StepR::Trap(
                    t@,
                );
                lemma_dispatch_trap_witness(
                    m@,
                    kind,
                    name@,
                    bufs_model(inputs@),
                    t.kind,
                    t.msg@,
                    ei as int,
                    nt,
                );
                assert forall|i: int, n: nat, vals: Seq<u64>, memf: Seq<u8>|
                    entry_row(m@, i, kind, name@) implies !(#[trigger] run_completes(
                    m@,
                    i,
                    bufs,
                    n,
                    vals,
                    memf,
                )) by {
                    lemma_entry_unique(m@, name@, i, ei as int);
                    if run_completes(m@, i, bufs, n, vals, memf) {
                        crate::interp::lemma_run_outcome_unique(m@, st, n, nt);
                        assert(false);
                    }
                }
                assert(!call_completes(m@, kind, name@, bufs));
                assert forall|i: int, n: nat, vals: Seq<u64>, memf: Seq<u8>|
                    entry_row(m@, i, kind, name@) implies !(#[trigger] run_miscompletes(
                    m@,
                    i,
                    bufs,
                    n,
                    vals,
                    memf,
                )) by {
                    lemma_entry_unique(m@, name@, i, ei as int);
                    if run_miscompletes(m@, i, bufs, n, vals, memf) {
                        crate::interp::lemma_run_outcome_unique(m@, st, n, nt);
                        assert(false);
                    }
                }
                assert(!dispatch_bad_output(m@, kind, name@, bufs));
                if dispatch_exhausted(m@, kind, name@, bufs) {
                    let i3: int = choose|i: int|
                        {
                            &&& 0 <= i < m@.exports.len()
                            &&& (#[trigger] m@.exports[i]).kind == kind
                            &&& m@.exports[i].name == name@
                            &&& spec_run_n(
                                m@,
                                start_state(m@, m@.exports[i].func, bufs),
                                STEP_BUDGET as nat,
                            ) is Next
                        };
                    lemma_entry_unique(m@, name@, i3, ei as int);
                    crate::interp::lemma_spec_run_n_stable(m@, st, nt, STEP_BUDGET as nat);
                    assert(false);
                }
                assert forall|k2: TrapKind, msg2: Seq<u8>|
                    #[trigger] dispatch_trap(m@, kind, name@, bufs, k2, msg2) implies (k2
                    == t.kind && msg2 == t.msg@) by {
                    let (i4, n4): (int, nat) = choose|i: int, n: nat|
                        {
                            &&& 0 <= i < m@.exports.len()
                            &&& m@.exports[i].kind == kind
                            &&& m@.exports[i].name == name@
                            &&& n <= STEP_BUDGET
                            &&& #[trigger] spec_run_n(
                                m@,
                                start_state(m@, m@.exports[i].func, bufs),
                                n,
                            ) == StepR::Trap(TrapV { kind: k2, msg: msg2 })
                        };
                    lemma_entry_unique(m@, name@, i4, ei as int);
                    crate::interp::lemma_run_outcome_unique(m@, st, n4, nt);
                }
            }
            Err(Diagnostic { kind: DiagKind::GuestTrap(t.kind), detail: t.msg, span: None, module_error: None })
        },
        RunExec::OutOfSteps => {
            proof {
                lemma_dispatch_exhausted_witness(
                    m@,
                    kind,
                    name@,
                    bufs_model(inputs@),
                    ei as int,
                );
                assert(spec_run_n(m@, st, STEP_BUDGET as nat) is Next);
                assert forall|i: int, n: nat, vals: Seq<u64>, memf: Seq<u8>|
                    entry_row(m@, i, kind, name@) implies !(#[trigger] run_completes(
                    m@,
                    i,
                    bufs,
                    n,
                    vals,
                    memf,
                )) by {
                    lemma_entry_unique(m@, name@, i, ei as int);
                    if run_completes(m@, i, bufs, n, vals, memf) {
                        crate::interp::lemma_spec_run_n_stable(m@, st, n, STEP_BUDGET as nat);
                        assert(false);
                    }
                }
                assert(!call_completes(m@, kind, name@, bufs));
                assert forall|i: int, n: nat, vals: Seq<u64>, memf: Seq<u8>|
                    entry_row(m@, i, kind, name@) implies !(#[trigger] run_miscompletes(
                    m@,
                    i,
                    bufs,
                    n,
                    vals,
                    memf,
                )) by {
                    lemma_entry_unique(m@, name@, i, ei as int);
                    if run_miscompletes(m@, i, bufs, n, vals, memf) {
                        crate::interp::lemma_spec_run_n_stable(m@, st, n, STEP_BUDGET as nat);
                        assert(false);
                    }
                }
                assert(!dispatch_bad_output(m@, kind, name@, bufs));
                assert forall|k2: TrapKind, msg2: Seq<u8>| !(#[trigger] dispatch_trap(
                    m@,
                    kind,
                    name@,
                    bufs,
                    k2,
                    msg2,
                )) by {
                    if dispatch_trap(m@, kind, name@, bufs, k2, msg2) {
                        let (i4, n4): (int, nat) = choose|i: int, n: nat|
                            {
                                &&& 0 <= i < m@.exports.len()
                                &&& m@.exports[i].kind == kind
                                &&& m@.exports[i].name == name@
                                &&& n <= STEP_BUDGET
                                &&& #[trigger] spec_run_n(
                                    m@,
                                    start_state(m@, m@.exports[i].func, bufs),
                                    n,
                                ) == StepR::Trap(TrapV { kind: k2, msg: msg2 })
                            };
                        lemma_entry_unique(m@, name@, i4, ei as int);
                        crate::interp::lemma_spec_run_n_stable(m@, st, n4, STEP_BUDGET as nat);
                        assert(false);
                    }
                }
            }
            Err(Diagnostic { kind: DiagKind::StepBudgetExhausted, detail: Vec::new(), span: None, module_error: None })
        },
        RunExec::Finished(vs) => {
            let ghost nd = choose|n: nat|
                n <= STEP_BUDGET && spec_run_n(m@, st, n) == StepR::Done(vs@, inst@.mem);
            proof {
                assert(spec_run_n(m@, st, nd) == StepR::Done(vs@, inst@.mem));
                assert forall|k2: TrapKind, msg2: Seq<u8>| !(#[trigger] dispatch_trap(
                    m@,
                    kind,
                    name@,
                    bufs,
                    k2,
                    msg2,
                )) by {
                    if dispatch_trap(m@, kind, name@, bufs, k2, msg2) {
                        let (i4, n4): (int, nat) = choose|i: int, n: nat|
                            {
                                &&& 0 <= i < m@.exports.len()
                                &&& m@.exports[i].kind == kind
                                &&& m@.exports[i].name == name@
                                &&& n <= STEP_BUDGET
                                &&& #[trigger] spec_run_n(
                                    m@,
                                    start_state(m@, m@.exports[i].func, bufs),
                                    n,
                                ) == StepR::Trap(TrapV { kind: k2, msg: msg2 })
                            };
                        lemma_entry_unique(m@, name@, i4, ei as int);
                        crate::interp::lemma_run_outcome_unique(m@, st, n4, nd);
                        assert(false);
                    }
                }
                if dispatch_exhausted(m@, kind, name@, bufs) {
                    let i3: int = choose|i: int|
                        {
                            &&& 0 <= i < m@.exports.len()
                            &&& (#[trigger] m@.exports[i]).kind == kind
                            &&& m@.exports[i].name == name@
                            &&& spec_run_n(
                                m@,
                                start_state(m@, m@.exports[i].func, bufs),
                                STEP_BUDGET as nat,
                            ) is Next
                        };
                    lemma_entry_unique(m@, name@, i3, ei as int);
                    crate::interp::lemma_spec_run_n_stable(m@, st, nd, STEP_BUDGET as nat);
                    assert(false);
                }
            }
            if vs.len() != 2 {
                proof {
                    assert(run_miscompletes(m@, ei as int, bufs, nd, vs@, inst@.mem));
                    assert(dispatch_bad_output(m@, kind, name@, bufs));
                    assert forall|i: int, n: nat, vals: Seq<u64>, memf: Seq<u8>|
                        entry_row(m@, i, kind, name@) implies !(#[trigger] run_completes(
                        m@,
                        i,
                        bufs,
                        n,
                        vals,
                        memf,
                    )) by {
                        lemma_entry_unique(m@, name@, i, ei as int);
                        if run_completes(m@, i, bufs, n, vals, memf) {
                            crate::interp::lemma_run_outcome_unique(m@, st, n, nd);
                            assert(false);
                        }
                    }
                    assert(!call_completes(m@, kind, name@, bufs));
                }
                return Err(
                    Diagnostic { kind: DiagKind::MalformedOutput, detail: Vec::new(), span: None, module_error: None },
                );
            }
            let rp = vs[0];
            let rl = vs[1];
            match inst.mem.read_bytes(rp, rl) {
                None => {
                    proof {
                        assert(vs@[0] + vs@[1] > inst@.mem.len());
                        assert(run_miscompletes(m@, ei as int, bufs, nd, vs@, inst@.mem));
                        assert(dispatch_bad_output(m@, kind, name@, bufs));
                        assert forall|i: int, n: nat, vals: Seq<u64>, memf: Seq<u8>|
                            entry_row(m@, i, kind, name@) implies !(#[trigger] run_completes(
                            m@,
                            i,
                            bufs,
                            n,
                            vals,
                            memf,
                        )) by {
                            lemma_entry_unique(m@, name@, i, ei as int);
                            if run_completes(m@, i, bufs, n, vals, memf) {
                                crate::interp::lemma_run_outcome_unique(m@, st, n, nd);
                                assert(false);
                            }
                        }
                        assert(!call_completes(m@, kind, name@, bufs));
                    }
                    Err(
                        Diagnostic { kind: DiagKind::MalformedOutput, detail: Vec::new(), span: None, module_error: None },
                    )
                },
                Some(out) => {
                    proof {
                        let n = choose|n: nat|
                            n <= STEP_BUDGET && spec_run_n(m@, st, n) == StepR::Done(
                                vs@,
                                inst@.mem,
                            );
                        assert(dispatch_ok(
                            m@,
                            kind,
                            name@,
                            bufs_model(inputs@),
                            out@,
                            ei as int,
                            n,
                            vs@,
                            inst@.mem,
                        ));
                        lemma_dispatch_witness(
                            m@,
                            kind,
                            name@,
                            bufs_model(inputs@),
                            out@,
                            ei as int,
                            n,
                            vs@,
                            inst@.mem,
                        );
                        assert forall|i: int, n2: nat, vals: Seq<u64>, memf: Seq<u8>|
                            entry_row(m@, i, kind, name@) implies !(#[trigger] run_miscompletes(
                            m@,
                            i,
                            bufs,
                            n2,
                            vals,
                            memf,
                        )) by {
                            lemma_entry_unique(m@, name@, i, ei as int);
                            if run_miscompletes(m@, i, bufs, n2, vals, memf) {
                                crate::interp::lemma_run_outcome_unique(m@, st, n2, nd);
                                assert(false);
                            }
                        }
                        assert(!dispatch_bad_output(m@, kind, name@, bufs));
                    }
                    Ok(out)
                },
            }
        },
    }
}

/// Splitting a buffer list before `i` splits its total length.
proof fn lemma_total_len_take(bufs: Seq<Seq<u8>>, i: int)
    requires
        0 <= i < bufs.len(),
    ensures
        total_len(bufs.take(i + 1)) == total_len(bufs.take(i)) + bufs[i].len(),
        total_len(bufs.skip(i)) == bufs[i].len() + total_len(bufs.skip(i + 1)),
        total_len(bufs.take(i)) >= 0,
        total_len(bufs.skip(i)) >= 0,
    decreases bufs.len(),
{
    lemma_total_len_snoc(bufs.take(i + 1));
    assert(bufs.take(i + 1).drop_last() =~= bufs.take(i));
    assert(bufs.skip(i)[0] == bufs[i]);
    assert(bufs.skip(i).drop_first() =~= bufs.skip(i + 1));
    lemma_total_len_nonneg(bufs.take(i));
    lemma_total_len_nonneg(bufs.skip(i));
}

proof fn lemma_total_len_snoc(bufs: Seq<Seq<u8>>)
    requires
        bufs.len() >= 1,
    ensures
        total_len(bufs) == total_len(bufs.drop_last()) + bufs.last().len(),
    decreases bufs.len(),
{
    if bufs.len() == 1 {
        assert(bufs.drop_last() =~= Seq::<Seq<u8>>::empty());
        assert(bufs.drop_first() =~= Seq::<Seq<u8>>::empty());
    } else {
        lemma_total_len_snoc(bufs.drop_first());
        assert(bufs.drop_first().drop_last() =~= bufs.drop_last().drop_first());
        assert(bufs.drop_last()[0] == bufs[0]);
        assert(bufs.drop_first().last() == bufs.last());
    }
}

proof fn lemma_total_len_nonneg(bufs: Seq<Seq<u8>>)
    ensures
        total_len(bufs) >= 0,
    decreases bufs.len(),
{
    if bufs.len() > 0 {
        lemma_total_len_nonneg(bufs.drop_first());
    }
}

} // verus!
