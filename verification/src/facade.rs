//! The macro facade: per blob, a compute-once cache holding the parsed
//! module — parsed on first use, the result (module or parse failure)
//! cached and reused by every later call — and the token-level entry
//! points that encode their inputs, dispatch, and decode the guest's
//! output or surface a `Diagnostic`.
//!
//! The cache is the only state that outlives a call; a parsed `Module` is
//! never mutated afterwards, so sharing it read-only across threads is
//! sound.  Everything else — instance, memory, stacks — is created for
//! one call and discarded with it.

use vstd::prelude::*;

use crate::bytes::rd32;
use crate::codec::{
    dec_stream, decode_stream, enc_stream, encode_stream, stream_wf,
};
use crate::dispatch::{
    bufs_model, call_completes, callable_entry, dispatch, dispatch_bad_output,
    dispatch_exhausted, dispatch_ok, dispatch_output, dispatch_trap, entry_arity, entry_row,
    entry_sig_ok, inputs_fit, run_completes, start_state, DiagKind, Diagnostic,
};
use crate::interp::TrapKind;
use crate::module::{has_entry, module_wf, EntryKind, Module, ModuleV};
use crate::parse::{parse, sp_parse, MalformedModule};
use crate::token::{stream_model, Span, Token, TokenV};

verus! {

/// The module a blob parses to, where it parses at all.
pub open spec fn parsed_module(blob: Seq<u8>) -> ModuleV
    recommends
        sp_parse(blob) is Some,
{
    choose|mv: ModuleV| sp_parse(blob) == Some(mv)
}

/// What one registered macro declares at build time: its entry kind, its
/// entry-point name, and — for a derive-style macro — the auxiliary
/// attribute names it recognizes.
pub struct MacroDescriptor {
    pub kind: EntryKind,
    pub name: Vec<u8>,
    pub aux_attrs: Vec<Vec<u8>>,
}

enum CacheState {
    Unparsed,
    Ready(Module),
    Failed(MalformedModule),
}

/// Mathematical model of the cache's state.
pub enum CacheView {
    Unparsed,
    Ready(ModuleV),
    Failed(MalformedModule),
}

/// The per-blob compute-once cache: one binary blob, and the slot that
/// moves from unparsed to parsed (or to a cached parse failure) exactly
/// once, on first use.
pub struct ModuleCache {
    blob: Vec<u8>,
    state: CacheState,
}

impl ModuleCache {
    /// The blob this cache serves.
    pub closed spec fn spec_blob(&self) -> Seq<u8> {
        self.blob@
    }

    /// The state of the slot.
    pub closed spec fn spec_state(&self) -> CacheView {
        match self.state {
            CacheState::Unparsed => CacheView::Unparsed,
            CacheState::Ready(m) => CacheView::Ready(m@),
            CacheState::Failed(e) => CacheView::Failed(e),
        }
    }

    /// The slot never contradicts the blob: a ready module is what the
    /// blob parses to, a cached failure means the blob does not parse.
    pub closed spec fn wf(&self) -> bool {
        match self.state {
            CacheState::Unparsed => true,
            CacheState::Ready(m) => sp_parse(self.blob@) == Some(m@) && module_wf(m@),
            CacheState::Failed(e) => sp_parse(self.blob@) is None,
        }
    }

    /// A fresh, unparsed cache around one blob.
    pub fn new(blob: Vec<u8>) -> (c: ModuleCache)
        ensures
            c.wf(),
            c.spec_blob() == blob@,
            c.spec_state() == CacheView::Unparsed,
    {
        ModuleCache { blob, state: CacheState::Unparsed }
    }

    /// Moves the slot from unparsed to parsed, at most once: a slot
    /// already ready or failed is left exactly as it is and its cached
    /// outcome is re-surfaced, so the parser runs at most once per blob
    /// however many calls come.
    pub fn ensure_parsed(&mut self) -> (r: Result<(), MalformedModule>)
        requires
            old(self).wf(),
        ensures
            final(self).wf(),
            final(self).spec_blob() == old(self).spec_blob(),
            match old(self).spec_state() {
                CacheView::Unparsed => {
                    &&& (sp_parse(old(self).spec_blob()) matches Some(mv)
                        ==> final(self).spec_state() == CacheView::Ready(mv) && r is Ok)
                    &&& (sp_parse(old(self).spec_blob()) is None ==> (final(self).spec_state()
                        matches CacheView::Failed(e) && r == Err::<(), MalformedModule>(e)))
                },
                CacheView::Ready(mv) => final(self).spec_state() == old(self).spec_state() && r
                    is Ok,
                CacheView::Failed(e) => final(self).spec_state() == old(self).spec_state() && r
                    == Err::<(), MalformedModule>(e),
            },
            r is Ok <==> sp_parse(old(self).spec_blob()) is Some,
    {
        let need = match &self.state {
            CacheState::Unparsed => true,
            _ => false,
        };
        if need {
            match parse(&self.blob) {
                Ok(m) => {
                    self.state = CacheState::Ready(m);
                },
                Err(e) => {
                    self.state = CacheState::Failed(e);
                },
            }
        }
        match &self.state {
            CacheState::Unparsed => {
                assert(false);
                Ok(())
            },
            CacheState::Ready(_) => Ok(()),
            CacheState::Failed(e) => Err(*e),
        }
    }

    /// Parses on first use, then dispatches one invocation with raw,
    /// already-encoded input buffers.
    pub fn invoke_raw(&mut self, kind: EntryKind, name: &Vec<u8>, inputs: &Vec<Vec<u8>>) -> (r:
        Result<Vec<u8>, Diagnostic>)
        requires
            old(self).wf(),
            inputs@.len() == entry_arity(kind),
        ensures
            final(self).wf(),
            final(self).spec_blob() == old(self).spec_blob(),
            (r matches Err(d) && d.kind == DiagKind::MalformedModule) <==> sp_parse(
                old(self).spec_blob(),
            ) is None,
            (r matches Err(d) && d.kind == DiagKind::UnknownEntryPoint) <==> (sp_parse(
                old(self).spec_blob(),
            ) matches Some(mv) && !has_entry(mv, kind, name@)),
            r matches Ok(out) ==> (sp_parse(old(self).spec_blob()) matches Some(mv)
                && dispatch_output(mv, kind, name@, bufs_model(inputs@), out@)),
            r matches Err(d) ==> d.kind != DiagKind::OversizedInput && d.kind
                != DiagKind::GuestError,
            r matches Err(d) ==> match d.kind {
                DiagKind::GuestTrap(k) => sp_parse(old(self).spec_blob()) matches Some(mv)
                    && dispatch_trap(mv, kind, name@, bufs_model(inputs@), k, d.detail@),
                DiagKind::StepBudgetExhausted => sp_parse(old(self).spec_blob()) matches Some(
                    mv,
                ) && dispatch_exhausted(mv, kind, name@, bufs_model(inputs@)),
                DiagKind::MalformedOutput => sp_parse(old(self).spec_blob()) matches Some(mv)
                    && dispatch_bad_output(mv, kind, name@, bufs_model(inputs@)),
                _ => true,
            },
            r matches Err(d) ==> d.kind == DiagKind::MalformedModule
                ==> (final(self).spec_state() matches CacheView::Failed(e) && d.module_error
                == Some(e)),
            sp_parse(old(self).spec_blob()) is Some ==> final(self).spec_state()
                matches CacheView::Ready(_),
            (r matches Err(d) && d.kind == DiagKind::BadEntrySignature) <==> (sp_parse(
                old(self).spec_blob(),
            ) matches Some(mv) && (exists|i: int|
                #[trigger] entry_row(mv, i, kind, name@) && !entry_sig_ok(mv, i, kind))),
            (r matches Err(d) && d.kind == DiagKind::InputTooLarge) <==> (sp_parse(
                old(self).spec_blob(),
            ) matches Some(mv) && callable_entry(mv, kind, name@) && !inputs_fit(
                mv,
                bufs_model(inputs@),
            )),
            sp_parse(old(self).spec_blob()) matches Some(mv) && call_completes(
                mv,
                kind,
                name@,
                bufs_model(inputs@),
            ) && inputs_fit(mv, bufs_model(inputs@)) ==> r is Ok,
            forall|k: TrapKind, msg: Seq<u8>|
                (sp_parse(old(self).spec_blob()) is Some && callable_entry(
                    parsed_module(old(self).spec_blob()),
                    kind,
                    name@,
                ) && inputs_fit(parsed_module(old(self).spec_blob()), bufs_model(inputs@))
                    && #[trigger] dispatch_trap(
                    parsed_module(old(self).spec_blob()),
                    kind,
                    name@,
                    bufs_model(inputs@),
                    k,
                    msg,
                )) ==> (r matches Err(d) && d.kind == DiagKind::GuestTrap(k) && d.detail@
                == msg),
            sp_parse(old(self).spec_blob()) matches Some(mv) && callable_entry(mv, kind, name@)
                && inputs_fit(mv, bufs_model(inputs@)) && dispatch_exhausted(
                mv,
                kind,
                name@,
                bufs_model(inputs@),
            ) ==> (r matches Err(d) && d.kind == DiagKind::StepBudgetExhausted),
            sp_parse(old(self).spec_blob()) matches Some(mv) && callable_entry(mv, kind, name@)
                && inputs_fit(mv, bufs_model(inputs@)) && dispatch_bad_output(
                mv,
                kind,
                name@,
                bufs_model(inputs@),
            ) ==> (r matches Err(d) && d.kind == DiagKind::MalformedOutput),
        {
        match self.ensure_parsed() {
            Err(e) => {
                return Err(
                    Diagnostic {
                        kind: DiagKind::MalformedModule,
                        detail: Vec::new(),
                        span: None,
                        module_error: Some(e),
                    },
                );
            },
            Ok(()) => {},
        }
        let m = match &self.state {
            CacheState::Ready(m) => m,
            _ => {
                assert(false);
                return Err(
                    Diagnostic { kind: DiagKind::MalformedModule, detail: Vec::new(), span: None, module_error: None },
                );
            },
        };
        proof {
            assert(sp_parse(old(self).spec_blob()) == Some(m@));
            assert(parsed_module(old(self).spec_blob()) == m@);
        }
        dispatch(m, kind, name, inputs)
    }

    /// A function-style macro invocation: one token stream in, one out.
    /// The contract owes every outcome to the semantics: when the blob
    /// parses, the input is within the grammar, the entry is callable and
    /// the buffers fit, a guest answer that decodes as a stream is owed
    /// `Ok`, a guest-reported error is owed `GuestError` verbatim, and an
    /// unreadable answer is owed `MalformedOutput`.
    pub fn proc_macro(&mut self, name: &Vec<u8>, input: &Vec<Token>) -> (r: Result<
        Vec<Token>,
        Diagnostic,
    >)
        requires
            old(self).wf(),
        ensures
            final(self).wf(),
            final(self).spec_blob() == old(self).spec_blob(),
            (r matches Err(d) && d.kind == DiagKind::MalformedModule) <==> sp_parse(
                old(self).spec_blob(),
            ) is None,
            r matches Err(d) ==> d.kind == DiagKind::MalformedModule
                ==> (final(self).spec_state() matches CacheView::Failed(e) && d.module_error
                == Some(e)),
            (r matches Err(d) && d.kind == DiagKind::OversizedInput) <==> (sp_parse(
                old(self).spec_blob(),
            ) is Some && !stream_wf(stream_model(input@))),
            (r matches Err(d) && d.kind == DiagKind::UnknownEntryPoint) <==> (sp_parse(
                old(self).spec_blob(),
            ) matches Some(mv) && stream_wf(stream_model(input@)) && !has_entry(
                mv,
                EntryKind::Function,
                name@,
            )),
            r matches Ok(ts) ==> macro_success(
                old(self).spec_blob(),
                EntryKind::Function,
                name@,
                seq![enc_stream(stream_model(input@))],
                stream_model(ts@),
            ),
            r matches Err(d) ==> d.kind == DiagKind::GuestError ==> macro_failure(
                old(self).spec_blob(),
                EntryKind::Function,
                name@,
                seq![enc_stream(stream_model(input@))],
                d.detail@,
                d.span,
            ),
            r matches Err(d) ==> match d.kind {
                DiagKind::GuestTrap(k) => sp_parse(old(self).spec_blob()) matches Some(mv)
                    && dispatch_trap(mv, EntryKind::Function, name@, seq![enc_stream(stream_model(input@))], k, d.detail@),
                DiagKind::StepBudgetExhausted => sp_parse(old(self).spec_blob()) matches Some(
                    mv,
                ) && dispatch_exhausted(mv, EntryKind::Function, name@, seq![enc_stream(stream_model(input@))]),
                DiagKind::MalformedOutput => sp_parse(old(self).spec_blob()) matches Some(mv)
                    && (dispatch_bad_output(mv, EntryKind::Function, name@, seq![enc_stream(stream_model(input@))]) || guest_replies_malformed(
                    mv,
                    EntryKind::Function,
                    name@,
                    seq![enc_stream(stream_model(input@))],
                )),
                _ => true,
            },
            (r matches Err(d) && d.kind == DiagKind::BadEntrySignature) <==> (sp_parse(
                old(self).spec_blob(),
            ) matches Some(mv) && stream_wf(stream_model(input@)) && (exists|i: int|
                #[trigger] entry_row(mv, i, EntryKind::Function, name@) && !entry_sig_ok(mv, i, EntryKind::Function))),
            (r matches Err(d) && d.kind == DiagKind::InputTooLarge) <==> (sp_parse(
                old(self).spec_blob(),
            ) matches Some(mv) && stream_wf(stream_model(input@)) && callable_entry(mv, EntryKind::Function, name@) && !inputs_fit(mv, seq![enc_stream(stream_model(input@))])),
            sp_parse(old(self).spec_blob()) matches Some(mv) && stream_wf(stream_model(input@)) && callable_entry(
                mv,
                EntryKind::Function,
                name@,
            ) && inputs_fit(mv, seq![enc_stream(stream_model(input@))]) && guest_replies_success(mv, EntryKind::Function, name@, seq![enc_stream(stream_model(input@))]) ==> r is Ok,
            sp_parse(old(self).spec_blob()) matches Some(mv) && stream_wf(stream_model(input@)) && callable_entry(
                mv,
                EntryKind::Function,
                name@,
            ) && inputs_fit(mv, seq![enc_stream(stream_model(input@))]) && guest_replies_failure(mv, EntryKind::Function, name@, seq![enc_stream(stream_model(input@))]) ==> (r
                matches Err(d) && d.kind == DiagKind::GuestError),
            sp_parse(old(self).spec_blob()) matches Some(mv) && stream_wf(stream_model(input@)) && callable_entry(
                mv,
                EntryKind::Function,
                name@,
            ) && inputs_fit(mv, seq![enc_stream(stream_model(input@))]) && (guest_replies_malformed(mv, EntryKind::Function, name@, seq![enc_stream(stream_model(input@))])
                || dispatch_bad_output(mv, EntryKind::Function, name@, seq![enc_stream(stream_model(input@))])) ==> (r matches Err(d) && d.kind
                == DiagKind::MalformedOutput),
    {
        if let Err(e) = self.ensure_parsed() {
            return Err(
                Diagnostic {
                    kind: DiagKind::MalformedModule,
                    detail: Vec::new(),
                    span: None,
                    module_error: Some(e),
                },
            );
        }
        let encoded = match encode_stream(input) {
            Ok(b) => b,
            Err(_) => {
                return Err(
                    Diagnostic { kind: DiagKind::OversizedInput, detail: Vec::new(), span: None, module_error: None },
                );
            },
        };
        let mut inputs: Vec<Vec<u8>> = Vec::new();
        inputs.push(encoded);
        proof {
            assert(bufs_model(inputs@) =~= seq![enc_stream(stream_model(input@))]);
        }
        self.finish(EntryKind::Function, name, &inputs)
    }

    /// An attribute-style macro invocation: the attribute's arguments and
    /// the target item, as token streams.
    pub fn proc_macro_attribute(
        &mut self,
        name: &Vec<u8>,
        args: &Vec<Token>,
        item: &Vec<Token>,
    ) -> (r: Result<Vec<Token>, Diagnostic>)
        requires
            old(self).wf(),
        ensures
            final(self).wf(),
            final(self).spec_blob() == old(self).spec_blob(),
            (r matches Err(d) && d.kind == DiagKind::MalformedModule) <==> sp_parse(
                old(self).spec_blob(),
            ) is None,
            r matches Err(d) ==> d.kind == DiagKind::MalformedModule
                ==> (final(self).spec_state() matches CacheView::Failed(e) && d.module_error
                == Some(e)),
            (r matches Err(d) && d.kind == DiagKind::OversizedInput) <==> (sp_parse(
                old(self).spec_blob(),
            ) is Some && !(stream_wf(stream_model(args@)) && stream_wf(stream_model(item@)))),
            (r matches Err(d) && d.kind == DiagKind::UnknownEntryPoint) <==> (sp_parse(
                old(self).spec_blob(),
            ) matches Some(mv) && stream_wf(stream_model(args@)) && stream_wf(
                stream_model(item@),
            ) && !has_entry(mv, EntryKind::Attribute, name@)),
            r matches Ok(ts) ==> macro_success(
                old(self).spec_blob(),
                EntryKind::Attribute,
                name@,
                seq![enc_stream(stream_model(args@)), enc_stream(stream_model(item@))],
                stream_model(ts@),
            ),
            r matches Err(d) ==> d.kind == DiagKind::GuestError ==> macro_failure(
                old(self).spec_blob(),
                EntryKind::Attribute,
                name@,
                seq![enc_stream(stream_model(args@)), enc_stream(stream_model(item@))],
                d.detail@,
                d.span,
            ),
            r matches Err(d) ==> match d.kind {
                DiagKind::GuestTrap(k) => sp_parse(old(self).spec_blob()) matches Some(mv)
                    && dispatch_trap(mv, EntryKind::Attribute, name@, seq![enc_stream(stream_model(args@)), enc_stream(stream_model(item@))], k, d.detail@),
                DiagKind::StepBudgetExhausted => sp_parse(old(self).spec_blob()) matches Some(
                    mv,
                ) && dispatch_exhausted(mv, EntryKind::Attribute, name@, seq![enc_stream(stream_model(args@)), enc_stream(stream_model(item@))]),
                DiagKind::MalformedOutput => sp_parse(old(self).spec_blob()) matches Some(mv)
                    && (dispatch_bad_output(mv, EntryKind::Attribute, name@, seq![enc_stream(stream_model(args@)), enc_stream(stream_model(item@))]) || guest_replies_malformed(
                    mv,
                    EntryKind::Attribute,
                    name@,
                    seq![enc_stream(stream_model(args@)), enc_stream(stream_model(item@))],
                )),
                _ => true,
            },
            (r matches Err(d) && d.kind == DiagKind::BadEntrySignature) <==> (sp_parse(
                old(self).spec_blob(),
            ) matches Some(mv) && (stream_wf(stream_model(args@)) && stream_wf(stream_model(item@))) && (exists|i: int|
                #[trigger] entry_row(mv, i, EntryKind::Attribute, name@) && !entry_sig_ok(mv, i, EntryKind::Attribute))),
            (r matches Err(d) && d.kind == DiagKind::InputTooLarge) <==> (sp_parse(
                old(self).spec_blob(),
            ) matches Some(mv) && (stream_wf(stream_model(args@)) && stream_wf(stream_model(item@))) && callable_entry(mv, EntryKind::Attribute, name@) && !inputs_fit(mv, seq![enc_stream(stream_model(args@)), enc_stream(stream_model(item@))])),
            sp_parse(old(self).spec_blob()) matches Some(mv) && (stream_wf(stream_model(args@)) && stream_wf(stream_model(item@))) && callable_entry(
                mv,
                EntryKind::Attribute,
                name@,
            ) && inputs_fit(mv, seq![enc_stream(stream_model(args@)), enc_stream(stream_model(item@))]) && guest_replies_success(mv, EntryKind::Attribute, name@, seq![enc_stream(stream_model(args@)), enc_stream(stream_model(item@))]) ==> r is Ok,
            sp_parse(old(self).spec_blob()) matches Some(mv) && (stream_wf(stream_model(args@)) && stream_wf(stream_model(item@))) && callable_entry(
                mv,
                EntryKind::Attribute,
                name@,
            ) && inputs_fit(mv, seq![enc_stream(stream_model(args@)), enc_stream(stream_model(item@))]) && guest_replies_failure(mv, EntryKind::Attribute, name@, seq![enc_stream(stream_model(args@)), enc_stream(stream_model(item@))]) ==> (r
                matches Err(d) && d.kind == DiagKind::GuestError),
            sp_parse(old(self).spec_blob()) matches Some(mv) && (stream_wf(stream_model(args@)) && stream_wf(stream_model(item@))) && callable_entry(
                mv,
                EntryKind::Attribute,
                name@,
            ) && inputs_fit(mv, seq![enc_stream(stream_model(args@)), enc_stream(stream_model(item@))]) && (guest_replies_malformed(mv, EntryKind::Attribute, name@, seq![enc_stream(stream_model(args@)), enc_stream(stream_model(item@))])
                || dispatch_bad_output(mv, EntryKind::Attribute, name@, seq![enc_stream(stream_model(args@)), enc_stream(stream_model(item@))])) ==> (r matches Err(d) && d.kind
                == DiagKind::MalformedOutput),
    {
        if let Err(e) = self.ensure_parsed() {
            return Err(
                Diagnostic {
                    kind: DiagKind::MalformedModule,
                    detail: Vec::new(),
                    span: None,
                    module_error: Some(e),
                },
            );
        }
        let enc_args = match encode_stream(args) {
            Ok(b) => b,
            Err(_) => {
                return Err(
                    Diagnostic { kind: DiagKind::OversizedInput, detail: Vec::new(), span: None, module_error: None },
                );
            },
        };
        let enc_item = match encode_stream(item) {
            Ok(b) => b,
            Err(_) => {
                return Err(
                    Diagnostic { kind: DiagKind::OversizedInput, detail: Vec::new(), span: None, module_error: None },
                );
            },
        };
        let mut inputs: Vec<Vec<u8>> = Vec::new();
        inputs.push(enc_args);
        inputs.push(enc_item);
        proof {
            assert(bufs_model(inputs@) =~= seq![
                enc_stream(stream_model(args@)),
                enc_stream(stream_model(item@)),
            ]);
        }
        self.finish(EntryKind::Attribute, name, &inputs)
    }

    /// A derive-style macro invocation: the recognized auxiliary
    /// attribute names (as an identifier stream, possibly empty) and the
    /// target item.
    pub fn proc_macro_derive(&mut self, desc: &MacroDescriptor, item: &Vec<Token>) -> (r: Result<
        Vec<Token>,
        Diagnostic,
    >)
        requires
            old(self).wf(),
            desc.kind == EntryKind::Derive,
        ensures
            final(self).wf(),
            final(self).spec_blob() == old(self).spec_blob(),
            (r matches Err(d) && d.kind == DiagKind::MalformedModule) <==> sp_parse(
                old(self).spec_blob(),
            ) is None,
            r matches Err(d) ==> d.kind == DiagKind::MalformedModule
                ==> (final(self).spec_state() matches CacheView::Failed(e) && d.module_error
                == Some(e)),
            (r matches Err(d) && d.kind == DiagKind::OversizedInput) <==> (sp_parse(
                old(self).spec_blob(),
            ) is Some && !(stream_wf(aux_stream(names_model(desc.aux_attrs@))) && stream_wf(
                stream_model(item@),
            ))),
            (r matches Err(d) && d.kind == DiagKind::UnknownEntryPoint) <==> (sp_parse(
                old(self).spec_blob(),
            ) matches Some(mv) && stream_wf(aux_stream(names_model(desc.aux_attrs@)))
                && stream_wf(stream_model(item@)) && !has_entry(
                mv,
                EntryKind::Derive,
                desc.name@,
            )),
            r matches Ok(ts) ==> macro_success(
                old(self).spec_blob(),
                EntryKind::Derive,
                desc.name@,
                seq![
                    enc_stream(aux_stream(names_model(desc.aux_attrs@))),
                    enc_stream(stream_model(item@)),
                ],
                stream_model(ts@),
            ),
            r matches Err(d) ==> d.kind == DiagKind::GuestError ==> macro_failure(
                old(self).spec_blob(),
                EntryKind::Derive,
                desc.name@,
                seq![
                    enc_stream(aux_stream(names_model(desc.aux_attrs@))),
                    enc_stream(stream_model(item@)),
                ],
                d.detail@,
                d.span,
            ),
            r matches Err(d) ==> match d.kind {
                DiagKind::GuestTrap(k) => sp_parse(old(self).spec_blob()) matches Some(mv)
                    && dispatch_trap(mv, EntryKind::Derive, desc.name@, seq![enc_stream(aux_stream(names_model(desc.aux_attrs@))), enc_stream(stream_model(item@))], k, d.detail@),
                DiagKind::StepBudgetExhausted => sp_parse(old(self).spec_blob()) matches Some(
                    mv,
                ) && dispatch_exhausted(mv, EntryKind::Derive, desc.name@, seq![enc_stream(aux_stream(names_model(desc.aux_attrs@))), enc_stream(stream_model(item@))]),
                DiagKind::MalformedOutput => sp_parse(old(self).spec_blob()) matches Some(mv)
                    && (dispatch_bad_output(mv, EntryKind::Derive, desc.name@, seq![enc_stream(aux_stream(names_model(desc.aux_attrs@))), enc_stream(stream_model(item@))]) || guest_replies_malformed(
                    mv,
                    EntryKind::Derive,
                    desc.name@,
                    seq![enc_stream(aux_stream(names_model(desc.aux_attrs@))), enc_stream(stream_model(item@))],
                )),
                _ => true,
            },
            (r matches Err(d) && d.kind == DiagKind::BadEntrySignature) <==> (sp_parse(
                old(self).spec_blob(),
            ) matches Some(mv) && (stream_wf(aux_stream(names_model(desc.aux_attrs@))) && stream_wf(stream_model(item@))) && (exists|i: int|
                #[trigger] entry_row(mv, i, EntryKind::Derive, desc.name@) && !entry_sig_ok(mv, i, EntryKind::Derive))),
            (r matches Err(d) && d.kind == DiagKind::InputTooLarge) <==> (sp_parse(
                old(self).spec_blob(),
            ) matches Some(mv) && (stream_wf(aux_stream(names_model(desc.aux_attrs@))) && stream_wf(stream_model(item@))) && callable_entry(mv, EntryKind::Derive, desc.name@) && !inputs_fit(mv, seq![enc_stream(aux_stream(names_model(desc.aux_attrs@))), enc_stream(stream_model(item@))])),
            sp_parse(old(self).spec_blob()) matches Some(mv) && (stream_wf(aux_stream(names_model(desc.aux_attrs@))) && stream_wf(stream_model(item@))) && callable_entry(
                mv,
                EntryKind::Derive,
                desc.name@,
            ) && inputs_fit(mv, seq![enc_stream(aux_stream(names_model(desc.aux_attrs@))), enc_stream(stream_model(item@))]) && guest_replies_success(mv, EntryKind::Derive, desc.name@, seq![enc_stream(aux_stream(names_model(desc.aux_attrs@))), enc_stream(stream_model(item@))]) ==> r is Ok,
            sp_parse(old(self).spec_blob()) matches Some(mv) && (stream_wf(aux_stream(names_model(desc.aux_attrs@))) && stream_wf(stream_model(item@))) && callable_entry(
                mv,
                EntryKind::Derive,
                desc.name@,
            ) && inputs_fit(mv, seq![enc_stream(aux_stream(names_model(desc.aux_attrs@))), enc_stream(stream_model(item@))]) && guest_replies_failure(mv, EntryKind::Derive, desc.name@, seq![enc_stream(aux_stream(names_model(desc.aux_attrs@))), enc_stream(stream_model(item@))]) ==> (r
                matches Err(d) && d.kind == DiagKind::GuestError),
            sp_parse(old(self).spec_blob()) matches Some(mv) && (stream_wf(aux_stream(names_model(desc.aux_attrs@))) && stream_wf(stream_model(item@))) && callable_entry(
                mv,
                EntryKind::Derive,
                desc.name@,
            ) && inputs_fit(mv, seq![enc_stream(aux_stream(names_model(desc.aux_attrs@))), enc_stream(stream_model(item@))]) && (guest_replies_malformed(mv, EntryKind::Derive, desc.name@, seq![enc_stream(aux_stream(names_model(desc.aux_attrs@))), enc_stream(stream_model(item@))])
                || dispatch_bad_output(mv, EntryKind::Derive, desc.name@, seq![enc_stream(aux_stream(names_model(desc.aux_attrs@))), enc_stream(stream_model(item@))])) ==> (r matches Err(d) && d.kind
                == DiagKind::MalformedOutput),
    {
        if let Err(e) = self.ensure_parsed() {
            return Err(
                Diagnostic {
                    kind: DiagKind::MalformedModule,
                    detail: Vec::new(),
                    span: None,
                    module_error: Some(e),
                },
            );
        }
        let mut aux: Vec<Token> = Vec::new();
        let mut i: usize = 0;
        proof {
            assert(stream_model(aux@) =~= aux_stream(names_model(desc.aux_attrs@)).take(0));
        }
        while i < desc.aux_attrs.len()
            invariant
                i <= desc.aux_attrs@.len(),
                stream_model(aux@) =~= aux_stream(names_model(desc.aux_attrs@)).take(i as int),
            decreases desc.aux_attrs@.len() - i,
        {
            let ghost before = aux@;
            aux.push(
                Token::Ident(crate::bytes::clone_bytes(&desc.aux_attrs[i]), Span { lo: 0, hi: 0 }),
            );
            proof {
                assert(stream_model(aux@) =~= stream_model(before).push(
                    aux_stream(names_model(desc.aux_attrs@))[i as int],
                ));
                assert(stream_model(aux@) =~= aux_stream(names_model(desc.aux_attrs@)).take(
                    i + 1,
                ));
            }
            i += 1;
        }
        proof {
            let full = aux_stream(names_model(desc.aux_attrs@));
            assert(full.take(full.len() as int) =~= full);
        }
        let enc_aux = match encode_stream(&aux) {
            Ok(b) => b,
            Err(_) => {
                return Err(
                    Diagnostic { kind: DiagKind::OversizedInput, detail: Vec::new(), span: None, module_error: None },
                );
            },
        };
        let enc_item = match encode_stream(item) {
            Ok(b) => b,
            Err(_) => {
                return Err(
                    Diagnostic { kind: DiagKind::OversizedInput, detail: Vec::new(), span: None, module_error: None },
                );
            },
        };
        let mut inputs: Vec<Vec<u8>> = Vec::new();
        inputs.push(enc_aux);
        inputs.push(enc_item);
        proof {
            assert(bufs_model(inputs@) =~= seq![
                enc_stream(aux_stream(names_model(desc.aux_attrs@))),
                enc_stream(stream_model(item@)),
            ]);
        }
        self.finish(EntryKind::Derive, &desc.name, &inputs)
    }

    /// The shared tail of every invocation: dispatch the encoded buffers
    /// and decode the guest's output buffer.
    fn finish(&mut self, kind: EntryKind, name: &Vec<u8>, inputs: &Vec<Vec<u8>>) -> (r: Result<
        Vec<Token>,
        Diagnostic,
    >)
        requires
            old(self).wf(),
            inputs@.len() == entry_arity(kind),
            sp_parse(old(self).spec_blob()) is Some,
        ensures
            final(self).wf(),
            final(self).spec_blob() == old(self).spec_blob(),
            !(r matches Err(d) && d.kind == DiagKind::MalformedModule),
            !(r matches Err(d) && d.kind == DiagKind::OversizedInput),
            (r matches Err(d) && d.kind == DiagKind::UnknownEntryPoint) <==> (sp_parse(
                old(self).spec_blob(),
            ) matches Some(mv) && !has_entry(mv, kind, name@)),
            r matches Ok(ts) ==> macro_success(
                old(self).spec_blob(),
                kind,
                name@,
                bufs_model(inputs@),
                stream_model(ts@),
            ),
            r matches Err(d) ==> d.kind == DiagKind::GuestError ==> macro_failure(
                old(self).spec_blob(),
                kind,
                name@,
                bufs_model(inputs@),
                d.detail@,
                d.span,
            ),
            r matches Err(d) ==> match d.kind {
                DiagKind::GuestTrap(k) => sp_parse(old(self).spec_blob()) matches Some(mv)
                    && dispatch_trap(mv, kind, name@, bufs_model(inputs@), k, d.detail@),
                DiagKind::StepBudgetExhausted => sp_parse(old(self).spec_blob()) matches Some(
                    mv,
                ) && dispatch_exhausted(mv, kind, name@, bufs_model(inputs@)),
                DiagKind::MalformedOutput => sp_parse(old(self).spec_blob()) matches Some(mv)
                    && (dispatch_bad_output(mv, kind, name@, bufs_model(inputs@))
                    || guest_replies_malformed(mv, kind, name@, bufs_model(inputs@))),
                _ => true,
            },
            (r matches Err(d) && d.kind == DiagKind::BadEntrySignature) <==> (sp_parse(
                old(self).spec_blob(),
            ) matches Some(mv) && (exists|i: int|
                #[trigger] entry_row(mv, i, kind, name@) && !entry_sig_ok(mv, i, kind))),
            (r matches Err(d) && d.kind == DiagKind::InputTooLarge) <==> (sp_parse(
                old(self).spec_blob(),
            ) matches Some(mv) && callable_entry(mv, kind, name@) && !inputs_fit(
                mv,
                bufs_model(inputs@),
            )),
            sp_parse(old(self).spec_blob()) matches Some(mv) && callable_entry(mv, kind, name@)
                && inputs_fit(mv, bufs_model(inputs@)) && guest_replies_success(
                mv,
                kind,
                name@,
                bufs_model(inputs@),
            ) ==> r is Ok,
            sp_parse(old(self).spec_blob()) matches Some(mv) && callable_entry(mv, kind, name@)
                && inputs_fit(mv, bufs_model(inputs@)) && guest_replies_failure(
                mv,
                kind,
                name@,
                bufs_model(inputs@),
            ) ==> (r matches Err(d) && d.kind == DiagKind::GuestError),
            sp_parse(old(self).spec_blob()) matches Some(mv) && callable_entry(mv, kind, name@)
                && inputs_fit(mv, bufs_model(inputs@)) && (guest_replies_malformed(
                mv,
                kind,
                name@,
                bufs_model(inputs@),
            ) || dispatch_bad_output(mv, kind, name@, bufs_model(inputs@))) ==> (r matches Err(
                d,
            ) && d.kind == DiagKind::MalformedOutput),
    {
        let ghost blob = old(self).spec_blob();
        let ghost mv = choose|mv: ModuleV| sp_parse(blob) == Some(mv);
        let outb = match self.invoke_raw(kind, name, inputs) {
            Err(d) => {
                proof {
                    if callable_entry(mv, kind, name@) && inputs_fit(mv, bufs_model(inputs@)) {
                        assert(module_wf(mv)) by {
                            assert(self.wf());
                        }
                        if guest_replies_success(mv, kind, name@, bufs_model(inputs@)) {
                            lemma_replies_complete_success(mv, kind, name@, bufs_model(inputs@));
                            assert(false);
                        }
                        if guest_replies_failure(mv, kind, name@, bufs_model(inputs@)) {
                            lemma_replies_complete_failure(mv, kind, name@, bufs_model(inputs@));
                            assert(false);
                        }
                        if guest_replies_malformed(mv, kind, name@, bufs_model(inputs@)) {
                            lemma_replies_complete_malformed(
                                mv,
                                kind,
                                name@,
                                bufs_model(inputs@),
                            );
                            assert(false);
                        }
                    }
                }
                return Err(d);
            },
            Ok(b) => b,
        };
        proof {
            assert(module_wf(mv)) by {
                assert(self.wf());
            }
            assert(dispatch_output(mv, kind, name@, bufs_model(inputs@), outb@));
            lemma_output_decode_pins(mv, kind, name@, bufs_model(inputs@), outb@);
            crate::dispatch::lemma_output_excludes_others(
                mv,
                kind,
                name@,
                bufs_model(inputs@),
                outb@,
            );
        }
        match decode_output(&outb) {
            GuestOutput::Success(ts) => {
                proof {
                    lemma_macro_success_witness(
                        blob,
                        kind,
                        name@,
                        bufs_model(inputs@),
                        stream_model(ts@),
                        mv,
                        outb@,
                    );
                }
                Ok(ts)
            },
            GuestOutput::Failure(msg, sp) => {
                proof {
                    lemma_macro_failure_witness(
                        blob,
                        kind,
                        name@,
                        bufs_model(inputs@),
                        msg@,
                        sp,
                        mv,
                        outb@,
                    );
                }
                Err(Diagnostic { kind: DiagKind::GuestError, detail: msg, span: sp, module_error: None })
            },
            GuestOutput::Malformed => Err(
                Diagnostic { kind: DiagKind::MalformedOutput, detail: Vec::new(), span: None, module_error: None },
            ),
        }
    }
}

/// The identifier stream a derive-style entry receives as its first
/// buffer: one identifier per recognized auxiliary attribute name.
pub open spec fn aux_stream(names: Seq<Seq<u8>>) -> Seq<TokenV> {
    Seq::new(names.len(), |i: int| TokenV::Ident(names[i], Span { lo: 0, hi: 0 }))
}

/// The models of a list of attribute names.
pub open spec fn names_model(ns: Seq<Vec<u8>>) -> Seq<Seq<u8>> {
    Seq::new(ns.len(), |i: int| ns[i]@)
}

/// What a guest's output buffer decodes to: a token stream on success, a
/// guest-reported error message with an optional span, or nothing of the
/// protocol.
pub enum OutV {
    Success(Seq<TokenV>),
    Failure(Seq<u8>, Option<Span>),
    Malformed,
}

/// Decodes an output buffer: a zero tag carries an encoded token stream,
/// a one tag carries an error — a span flag, the span when flagged, and
/// the message bytes.
pub open spec fn dec_output(b: Seq<u8>) -> OutV {
    if b.len() < 1 {
        OutV::Malformed
    } else if b[0] == 0 {
        match dec_stream(b.drop_first()) {
            Some((ts, rest)) => {
                if rest.len() == 0 {
                    OutV::Success(ts)
                } else {
                    OutV::Malformed
                }
            },
            None => OutV::Malformed,
        }
    } else if b[0] == 1 {
        if b.len() < 2 {
            OutV::Malformed
        } else if b[1] == 0 {
            OutV::Failure(b.skip(2), None)
        } else if b[1] == 1 {
            if b.len() < 10 {
                OutV::Malformed
            } else {
                OutV::Failure(
                    b.skip(10),
                    Some(Span { lo: rd32(b.subrange(2, 6)), hi: rd32(b.subrange(6, 10)) }),
                )
            }
        } else {
            OutV::Malformed
        }
    } else {
        OutV::Malformed
    }
}

enum GuestOutput {
    Success(Vec<Token>),
    Failure(Vec<u8>, Option<Span>),
    Malformed,
}

fn decode_output(b: &Vec<u8>) -> (r: GuestOutput)
    ensures
        match r {
            GuestOutput::Success(ts) => dec_output(b@) == OutV::Success(stream_model(ts@)),
            GuestOutput::Failure(msg, sp) => dec_output(b@) == OutV::Failure(msg@, sp),
            GuestOutput::Malformed => dec_output(b@) == OutV::Malformed,
        },
{
    let n = b.len();
    if n < 1 {
        return GuestOutput::Malformed;
    }
    if b[0] == 0 {
        let body = crate::bytes::bytes_from(b, 1);
        proof {
            assert(body@ =~= b@.drop_first());
        }
        match decode_stream(&body) {
            Ok(ts) => GuestOutput::Success(ts),
            Err(_) => GuestOutput::Malformed,
        }
    } else if b[0] == 1 {
        if n < 2 {
            return GuestOutput::Malformed;
        }
        if b[1] == 0 {
            GuestOutput::Failure(crate::bytes::bytes_from(b, 2), None)
        } else if b[1] == 1 {
            if n < 10 {
                return GuestOutput::Malformed;
            }
            let lo = crate::bytes::rd32_at(b, 2);
            let hi = crate::bytes::rd32_at(b, 6);
            GuestOutput::Failure(crate::bytes::bytes_from(b, 10), Some(Span { lo, hi }))
        } else {
            GuestOutput::Malformed
        }
    } else {
        GuestOutput::Malformed
    }
}

/// The guest's run for this call finishes within the budget and its
/// result buffer decodes as a token stream.
pub open spec fn guest_replies_success(
    m: ModuleV,
    kind: EntryKind,
    name: Seq<u8>,
    bufs: Seq<Seq<u8>>,
) -> bool {
    exists|i: int, n: nat, vals: Seq<u64>, memf: Seq<u8>|
        {
            &&& entry_row(m, i, kind, name)
            &&& #[trigger] run_completes(m, i, bufs, n, vals, memf)
            &&& dec_output(memf.subrange(vals[0] as int, vals[0] + vals[1]))
                matches OutV::Success(_)
        }
}

/// The guest's run finishes and its result buffer decodes as a
/// guest-reported error.
pub open spec fn guest_replies_failure(
    m: ModuleV,
    kind: EntryKind,
    name: Seq<u8>,
    bufs: Seq<Seq<u8>>,
) -> bool {
    exists|i: int, n: nat, vals: Seq<u64>, memf: Seq<u8>|
        {
            &&& entry_row(m, i, kind, name)
            &&& #[trigger] run_completes(m, i, bufs, n, vals, memf)
            &&& dec_output(memf.subrange(vals[0] as int, vals[0] + vals[1]))
                matches OutV::Failure(_, _)
        }
}

/// The guest's run finishes but its result buffer is no output of the
/// protocol.
pub open spec fn guest_replies_malformed(
    m: ModuleV,
    kind: EntryKind,
    name: Seq<u8>,
    bufs: Seq<Seq<u8>>,
) -> bool {
    exists|i: int, n: nat, vals: Seq<u64>, memf: Seq<u8>|
        {
            &&& entry_row(m, i, kind, name)
            &&& #[trigger] run_completes(m, i, bufs, n, vals, memf)
            &&& dec_output(memf.subrange(vals[0] as int, vals[0] + vals[1])) is Malformed
        }
}

proof fn lemma_replies_complete_success(m: ModuleV, kind: EntryKind, name: Seq<u8>, bufs: Seq<
    Seq<u8>,
>)
    requires
        module_wf(m),
        callable_entry(m, kind, name),
        guest_replies_success(m, kind, name, bufs),
    ensures
        call_completes(m, kind, name, bufs),
{
    let ic: int = choose|i: int| #[trigger] entry_row(m, i, kind, name) && entry_sig_ok(
        m,
        i,
        kind,
    );
    let (i, n, vals, memf): (int, nat, Seq<u64>, Seq<u8>) = choose|
        i: int,
        n: nat,
        vals: Seq<u64>,
        memf: Seq<u8>,
    |
        {
            &&& entry_row(m, i, kind, name)
            &&& #[trigger] run_completes(m, i, bufs, n, vals, memf)
            &&& dec_output(memf.subrange(vals[0] as int, vals[0] + vals[1]))
                matches OutV::Success(_)
        };
    crate::dispatch::lemma_entry_unique(m, name, ic, i);
}

proof fn lemma_replies_complete_failure(m: ModuleV, kind: EntryKind, name: Seq<u8>, bufs: Seq<
    Seq<u8>,
>)
    requires
        module_wf(m),
        callable_entry(m, kind, name),
        guest_replies_failure(m, kind, name, bufs),
    ensures
        call_completes(m, kind, name, bufs),
{
    let ic: int = choose|i: int| #[trigger] entry_row(m, i, kind, name) && entry_sig_ok(
        m,
        i,
        kind,
    );
    let (i, n, vals, memf): (int, nat, Seq<u64>, Seq<u8>) = choose|
        i: int,
        n: nat,
        vals: Seq<u64>,
        memf: Seq<u8>,
    |
        {
            &&& entry_row(m, i, kind, name)
            &&& #[trigger] run_completes(m, i, bufs, n, vals, memf)
            &&& dec_output(memf.subrange(vals[0] as int, vals[0] + vals[1]))
                matches OutV::Failure(_, _)
        };
    crate::dispatch::lemma_entry_unique(m, name, ic, i);
}

proof fn lemma_replies_complete_malformed(
    m: ModuleV,
    kind: EntryKind,
    name: Seq<u8>,
    bufs: Seq<Seq<u8>>,
)
    requires
        module_wf(m),
        callable_entry(m, kind, name),
        guest_replies_malformed(m, kind, name, bufs),
    ensures
        call_completes(m, kind, name, bufs),
{
    let ic: int = choose|i: int| #[trigger] entry_row(m, i, kind, name) && entry_sig_ok(
        m,
        i,
        kind,
    );
    let (i, n, vals, memf): (int, nat, Seq<u64>, Seq<u8>) = choose|
        i: int,
        n: nat,
        vals: Seq<u64>,
        memf: Seq<u8>,
    |
        {
            &&& entry_row(m, i, kind, name)
            &&& #[trigger] run_completes(m, i, bufs, n, vals, memf)
            &&& dec_output(memf.subrange(vals[0] as int, vals[0] + vals[1])) is Malformed
        };
    crate::dispatch::lemma_entry_unique(m, name, ic, i);
}

/// A dispatch output buffer carries the one answer the guest gave: what
/// it decodes to is exactly what the semantics' result buffer decodes
/// to, in both directions.
proof fn lemma_output_decode_pins(
    m: ModuleV,
    kind: EntryKind,
    name: Seq<u8>,
    bufs: Seq<Seq<u8>>,
    outb: Seq<u8>,
)
    requires
        module_wf(m),
        dispatch_output(m, kind, name, bufs, outb),
    ensures
        guest_replies_success(m, kind, name, bufs) ==> (dec_output(outb)
            matches OutV::Success(_)),
        guest_replies_failure(m, kind, name, bufs) ==> (dec_output(outb) matches OutV::Failure(
            _,
            _,
        )),
        guest_replies_malformed(m, kind, name, bufs) ==> dec_output(outb) is Malformed,
        (dec_output(outb) matches OutV::Success(_)) ==> guest_replies_success(
            m,
            kind,
            name,
            bufs,
        ),
        (dec_output(outb) matches OutV::Failure(_, _)) ==> guest_replies_failure(
            m,
            kind,
            name,
            bufs,
        ),
        dec_output(outb) is Malformed ==> guest_replies_malformed(m, kind, name, bufs),
{
    let (i1, n1, v1, mf1): (int, nat, Seq<u64>, Seq<u8>) = choose|
        i: int,
        n: nat,
        vals: Seq<u64>,
        memf: Seq<u8>,
    | dispatch_ok(m, kind, name, bufs, outb, i, n, vals, memf);
    assert(run_completes(m, i1, bufs, n1, v1, mf1));
    assert(outb == mf1.subrange(v1[0] as int, v1[0] + v1[1]));
    let st = start_state(m, m.exports[i1].func, bufs);
    if guest_replies_success(m, kind, name, bufs) {
        let (i2, n2, v2, mf2): (int, nat, Seq<u64>, Seq<u8>) = choose|
            i: int,
            n: nat,
            vals: Seq<u64>,
            memf: Seq<u8>,
        |
            {
                &&& entry_row(m, i, kind, name)
                &&& #[trigger] run_completes(m, i, bufs, n, vals, memf)
                &&& dec_output(memf.subrange(vals[0] as int, vals[0] + vals[1]))
                    matches OutV::Success(_)
            };
        crate::dispatch::lemma_entry_unique(m, name, i1, i2);
        crate::interp::lemma_run_outcome_unique(m, st, n1, n2);
    }
    if guest_replies_failure(m, kind, name, bufs) {
        let (i2, n2, v2, mf2): (int, nat, Seq<u64>, Seq<u8>) = choose|
            i: int,
            n: nat,
            vals: Seq<u64>,
            memf: Seq<u8>,
        |
            {
                &&& entry_row(m, i, kind, name)
                &&& #[trigger] run_completes(m, i, bufs, n, vals, memf)
                &&& dec_output(memf.subrange(vals[0] as int, vals[0] + vals[1]))
                    matches OutV::Failure(_, _)
            };
        crate::dispatch::lemma_entry_unique(m, name, i1, i2);
        crate::interp::lemma_run_outcome_unique(m, st, n1, n2);
    }
    if guest_replies_malformed(m, kind, name, bufs) {
        let (i2, n2, v2, mf2): (int, nat, Seq<u64>, Seq<u8>) = choose|
            i: int,
            n: nat,
            vals: Seq<u64>,
            memf: Seq<u8>,
        |
            {
                &&& entry_row(m, i, kind, name)
                &&& #[trigger] run_completes(m, i, bufs, n, vals, memf)
                &&& dec_output(memf.subrange(vals[0] as int, vals[0] + vals[1])) is Malformed
            };
        crate::dispatch::lemma_entry_unique(m, name, i1, i2);
        crate::interp::lemma_run_outcome_unique(m, st, n1, n2);
    }
}

/// A successful invocation is backed by the semantics end to end: the
/// blob parses to a module, some dispatch of these buffers produced an
/// output buffer, and that buffer decodes to the returned stream.
pub open spec fn macro_success(
    blob: Seq<u8>,
    kind: EntryKind,
    name: Seq<u8>,
    bufs: Seq<Seq<u8>>,
    out_ts: Seq<TokenV>,
) -> bool {
    exists|mv: ModuleV, outb: Seq<u8>|
        {
            &&& #[trigger] dispatch_output(mv, kind, name, bufs, outb)
            &&& sp_parse(blob) == Some(mv)
            &&& dec_output(outb) == OutV::Success(out_ts)
        }
}

/// A guest-reported failure is backed the same way: the output buffer
/// decodes to this error message and span.
pub open spec fn macro_failure(
    blob: Seq<u8>,
    kind: EntryKind,
    name: Seq<u8>,
    bufs: Seq<Seq<u8>>,
    msg: Seq<u8>,
    span: Option<Span>,
) -> bool {
    exists|mv: ModuleV, outb: Seq<u8>|
        {
            &&& #[trigger] dispatch_output(mv, kind, name, bufs, outb)
            &&& sp_parse(blob) == Some(mv)
            &&& dec_output(outb) == OutV::Failure(msg, span)
        }
}

proof fn lemma_macro_success_witness(
    blob: Seq<u8>,
    kind: EntryKind,
    name: Seq<u8>,
    bufs: Seq<Seq<u8>>,
    out_ts: Seq<TokenV>,
    mv: ModuleV,
    outb: Seq<u8>,
)
    requires
        dispatch_output(mv, kind, name, bufs, outb),
        sp_parse(blob) == Some(mv),
        dec_output(outb) == OutV::Success(out_ts),
    ensures
        macro_success(blob, kind, name, bufs, out_ts),
{
    assert(exists|mv2: ModuleV, o2: Seq<u8>|
        {
            &&& #[trigger] dispatch_output(mv2, kind, name, bufs, o2)
            &&& sp_parse(blob) == Some(mv2)
            &&& dec_output(o2) == OutV::Success(out_ts)
        });
}

proof fn lemma_macro_failure_witness(
    blob: Seq<u8>,
    kind: EntryKind,
    name: Seq<u8>,
    bufs: Seq<Seq<u8>>,
    msg: Seq<u8>,
    span: Option<Span>,
    mv: ModuleV,
    outb: Seq<u8>,
)
    requires
        dispatch_output(mv, kind, name, bufs, outb),
        sp_parse(blob) == Some(mv),
        dec_output(outb) == OutV::Failure(msg, span),
    ensures
        macro_failure(blob, kind, name, bufs, msg, span),
{
    assert(exists|mv2: ModuleV, o2: Seq<u8>|
        {
            &&& #[trigger] dispatch_output(mv2, kind, name, bufs, o2)
            &&& sp_parse(blob) == Some(mv2)
            &&& dec_output(o2) == OutV::Failure(msg, span)
        });
}

} // verus!
