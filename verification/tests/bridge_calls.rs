use macro_bridge::dispatch::DiagKind;
use macro_bridge::facade::{MacroDescriptor, ModuleCache};
use macro_bridge::interp::TrapKind;
use macro_bridge::memory::{Memory, GROW_FAIL};
use macro_bridge::module::EntryKind;
use macro_bridge::parse::{
    MalformedModule, Section, OP_ADD, OP_CALL, OP_CONST, OP_DROP, OP_HOST_CALL, OP_JUMP,
    OP_LOCAL_GET, OP_LOCAL_SET, OP_STORE8, OP_SUB, OP_BR_IF,
};
use macro_bridge::token::{Delim, Span, Token};

fn p32(out: &mut Vec<u8>, x: u32) {
    out.extend_from_slice(&x.to_le_bytes());
}

struct Func {
    ty: u32,
    locals: u32,
    code: Vec<(u8, u64)>,
}

struct Exp {
    kind: u8,
    name: &'static [u8],
    func: u32,
}

fn build(types: &[(u32, u32)], funcs: &[Func], exports: &[Exp], mem: (u32, u32)) -> Vec<u8> {
    let mut b = vec![0x6d, 0x62, 0x63, 0x31];
    p32(&mut b, types.len() as u32);
    for (p, r) in types {
        p32(&mut b, *p);
        p32(&mut b, *r);
    }
    p32(&mut b, funcs.len() as u32);
    for f in funcs {
        p32(&mut b, f.ty);
        p32(&mut b, f.locals);
        p32(&mut b, f.code.len() as u32);
        for (op, imm) in &f.code {
            b.push(*op);
            b.extend_from_slice(&imm.to_le_bytes());
        }
    }
    p32(&mut b, exports.len() as u32);
    for e in exports {
        b.push(e.kind);
        p32(&mut b, e.name.len() as u32);
        b.extend_from_slice(e.name);
        p32(&mut b, e.func);
    }
    p32(&mut b, mem.0);
    p32(&mut b, mem.1);
    b
}

/// The code of a guest that returns its input buffer unchanged, with the
/// success tag written just before it: given (ptr, len) at local `p`, it
/// stores 0 at ptr-1 and returns (ptr-1, len+1).
fn tag_and_echo(p: u64) -> Vec<(u8, u64)> {
    vec![
        (OP_LOCAL_GET, p),
        (OP_CONST, 1),
        (OP_SUB, 0),
        (OP_CONST, 0),
        (OP_STORE8, 0),
        (OP_LOCAL_GET, p),
        (OP_CONST, 1),
        (OP_SUB, 0),
        (OP_LOCAL_GET, p + 1),
        (OP_CONST, 1),
        (OP_ADD, 0),
    ]
}

/// A guest module with one entry point per scenario the bridge supports.
fn guest_blob() -> Vec<u8> {
    let types = [(2, 2), (4, 2)];
    let funcs = vec![
        // 0: function-style identity.
        Func { ty: 0, locals: 0, code: tag_and_echo(0) },
        // 1: derive-style: echoes the target item, ignores the attrs.
        Func { ty: 1, locals: 0, code: tag_and_echo(2) },
        // 2: writes far past its memory bound.
        Func {
            ty: 0,
            locals: 0,
            code: vec![(OP_CONST, 0x1_0000_0000), (OP_CONST, 0xAB), (OP_STORE8, 0)],
        },
        // 3: aborts through the host table with an empty message.
        Func {
            ty: 0,
            locals: 0,
            code: vec![(OP_CONST, 0), (OP_CONST, 0), (OP_HOST_CALL, 1)],
        },
        // 4: reports an error of its own: a [1, 0] output buffer.
        Func {
            ty: 0,
            locals: 0,
            code: vec![
                (OP_LOCAL_GET, 0),
                (OP_CONST, 2),
                (OP_SUB, 0),
                (OP_CONST, 1),
                (OP_STORE8, 0),
                (OP_LOCAL_GET, 0),
                (OP_CONST, 1),
                (OP_SUB, 0),
                (OP_CONST, 0),
                (OP_STORE8, 0),
                (OP_LOCAL_GET, 0),
                (OP_CONST, 2),
                (OP_SUB, 0),
                (OP_CONST, 2),
            ],
        },
        // 5: identity through an inner call.
        Func {
            ty: 0,
            locals: 0,
            code: vec![(OP_LOCAL_GET, 0), (OP_LOCAL_GET, 1), (OP_CALL, 0)],
        },
        // 6: counts a scratch local down with a branch, then echoes.
        Func {
            ty: 0,
            locals: 1,
            code: {
                let mut c = vec![
                    (OP_CONST, 3),
                    (OP_LOCAL_SET, 2),
                    (OP_LOCAL_GET, 2),
                    (OP_CONST, 1),
                    (OP_SUB, 0),
                    (OP_LOCAL_SET, 2),
                    (OP_LOCAL_GET, 2),
                    (OP_BR_IF, 2),
                    (OP_JUMP, 9),
                ];
                c.extend(tag_and_echo(0));
                c
            },
        },
        // 7: grows memory by one page, drops the old size, then echoes.
        Func {
            ty: 0,
            locals: 0,
            code: {
                let mut c = vec![(OP_CONST, 1), (OP_HOST_CALL, 0), (OP_DROP, 0)];
                c.extend(tag_and_echo(0));
                c
            },
        },
        // 8: pops from an empty operand stack.
        Func { ty: 0, locals: 0, code: vec![(OP_DROP, 0)] },
        // 9: returns fewer values than its signature declares.
        Func { ty: 0, locals: 0, code: vec![] },
        // 10: points its result buffer far outside its memory.
        Func {
            ty: 0,
            locals: 0,
            code: vec![(OP_CONST, 0x1_0000_0000), (OP_CONST, 5)],
        },
        // 11: returns a buffer that is no output of the protocol.
        Func {
            ty: 0,
            locals: 0,
            code: vec![
                (OP_LOCAL_GET, 0),
                (OP_CONST, 1),
                (OP_SUB, 0),
                (OP_CONST, 9),
                (OP_STORE8, 0),
                (OP_LOCAL_GET, 0),
                (OP_CONST, 1),
                (OP_SUB, 0),
                (OP_CONST, 1),
            ],
        },
        // 12: reports an error with a span and a message: the buffer is
        // [error tag, span flag, lo, hi, message], written before the
        // input and returned as (ptr-13, 13).
        Func {
            ty: 0,
            locals: 0,
            code: {
                let mut c: Vec<(u8, u64)> = Vec::new();
                let bytes: [u64; 13] = [1, 1, 7, 0, 0, 0, 9, 0, 0, 0, b'b' as u64,
                    b'a' as u64, b'd' as u64];
                for (idx, v) in bytes.iter().enumerate() {
                    c.push((OP_LOCAL_GET, 0));
                    c.push((OP_CONST, 13 - idx as u64));
                    c.push((OP_SUB, 0));
                    c.push((OP_CONST, *v));
                    c.push((OP_STORE8, 0));
                }
                c.push((OP_LOCAL_GET, 0));
                c.push((OP_CONST, 13));
                c.push((OP_SUB, 0));
                c.push((OP_CONST, 13));
                c
            },
        },
    ];
    let exports = [
        Exp { kind: 1, name: b"identity", func: 0 },
        Exp { kind: 3, name: b"mkecho", func: 1 },
        Exp { kind: 1, name: b"smash", func: 2 },
        Exp { kind: 1, name: b"abort", func: 3 },
        Exp { kind: 1, name: b"reporterr", func: 4 },
        Exp { kind: 1, name: b"indirect", func: 5 },
        Exp { kind: 1, name: b"countdown", func: 6 },
        Exp { kind: 1, name: b"grower", func: 7 },
        Exp { kind: 2, name: b"wrap", func: 1 },
        // A function-style entry wrongly pointing at a two-buffer function.
        Exp { kind: 1, name: b"badsig", func: 1 },
        Exp { kind: 1, name: b"popper", func: 8 },
        Exp { kind: 1, name: b"tightlipped", func: 9 },
        Exp { kind: 1, name: b"hugeout", func: 10 },
        Exp { kind: 1, name: b"badout", func: 11 },
        Exp { kind: 1, name: b"spanerr", func: 12 },
    ];
    build(&types, &funcs, &exports, (1, 8))
}

fn token_eq(a: &Token, b: &Token) -> bool {
    match (a, b) {
        (Token::Ident(t1, s1), Token::Ident(t2, s2)) => t1 == t2 && s1 == s2,
        (Token::Literal(t1, s1), Token::Literal(t2, s2)) => t1 == t2 && s1 == s2,
        (Token::Punct(c1, j1, s1), Token::Punct(c2, j2, s2)) => {
            c1 == c2 && j1 == j2 && s1 == s2
        }
        (Token::Group(d1, b1, s1), Token::Group(d2, b2, s2)) => {
            d1 == d2 && s1 == s2 && stream_eq(b1, b2)
        }
        _ => false,
    }
}

fn stream_eq(a: &[Token], b: &[Token]) -> bool {
    a.len() == b.len() && a.iter().zip(b.iter()).all(|(x, y)| token_eq(x, y))
}

fn sample_stream() -> Vec<Token> {
    vec![
        Token::Ident(b"struct".to_vec(), Span { lo: 0, hi: 6 }),
        Token::Ident(b"Widget".to_vec(), Span { lo: 7, hi: 13 }),
        Token::Group(
            Delim::Brace,
            vec![
                Token::Ident(b"gears".to_vec(), Span { lo: 15, hi: 20 }),
                Token::Punct(b':', false, Span { lo: 20, hi: 21 }),
                Token::Ident(b"u32".to_vec(), Span { lo: 22, hi: 25 }),
            ],
            Span { lo: 14, hi: 26 },
        ),
    ]
}


fn ok_of<T, E>(r: Result<T, E>) -> T {
    match r {
        Ok(v) => v,
        Err(_) => panic!("the call was expected to succeed"),
    }
}

fn err_of<T, E>(r: Result<T, E>) -> E {
    match r {
        Ok(_) => panic!("the call was expected to fail"),
        Err(e) => e,
    }
}

fn cache() -> ModuleCache {
    ModuleCache::new(guest_blob())
}

#[test]
fn identity_returns_the_empty_stream_unchanged() {
    let mut c = cache();
    let out = ok_of(c.proc_macro(&b"identity".to_vec(), &Vec::new()));
    assert!(out.is_empty());
}

#[test]
fn identity_returns_a_nested_stream_unchanged() {
    let mut c = cache();
    let input = sample_stream();
    let out = ok_of(c.proc_macro(&b"identity".to_vec(), &input));
    assert!(stream_eq(&input, &out));
}

#[test]
fn identity_handles_one_nested_group_with_three_tokens() {
    let mut c = cache();
    let input = vec![Token::Group(
        Delim::Paren,
        vec![
            Token::Ident(b"a".to_vec(), Span { lo: 1, hi: 2 }),
            Token::Punct(b',', false, Span { lo: 2, hi: 3 }),
            Token::Literal(b"7".to_vec(), Span { lo: 4, hi: 5 }),
        ],
        Span { lo: 0, hi: 6 },
    )];
    let out = ok_of(c.proc_macro(&b"identity".to_vec(), &input));
    assert!(stream_eq(&input, &out));
}

#[test]
fn derive_succeeds_with_no_auxiliary_attributes() {
    let mut c = cache();
    let desc = MacroDescriptor {
        kind: EntryKind::Derive,
        name: b"mkecho".to_vec(),
        aux_attrs: Vec::new(),
    };
    let item = sample_stream();
    let out = ok_of(c.proc_macro_derive(&desc, &item));
    assert!(stream_eq(&item, &out));
}

#[test]
fn derive_passes_auxiliary_attribute_names_through() {
    let mut c = cache();
    let desc = MacroDescriptor {
        kind: EntryKind::Derive,
        name: b"mkecho".to_vec(),
        aux_attrs: vec![b"helper".to_vec(), b"other".to_vec()],
    };
    let item = sample_stream();
    let out = ok_of(c.proc_macro_derive(&desc, &item));
    assert!(stream_eq(&item, &out));
}

#[test]
fn attribute_entry_receives_two_buffers() {
    let mut c = cache();
    let args = vec![Token::Ident(b"level".to_vec(), Span { lo: 0, hi: 5 })];
    let item = sample_stream();
    // The wrap entry echoes its second buffer (the item).
    let out = ok_of(c
        .proc_macro_attribute(&b"wrap".to_vec(), &args, &item));
    assert!(stream_eq(&item, &out));
}

#[test]
fn unknown_entry_point_is_reported_as_such() {
    let mut c = cache();
    let d = err_of(c.proc_macro(&b"absent".to_vec(), &Vec::new()));
    assert_eq!(d.kind, DiagKind::UnknownEntryPoint);
}

#[test]
fn entry_kind_takes_part_in_the_lookup() {
    let mut c = cache();
    // "mkecho" exists, but as a derive-style entry, not function-style.
    let d = err_of(c.proc_macro(&b"mkecho".to_vec(), &Vec::new()));
    assert_eq!(d.kind, DiagKind::UnknownEntryPoint);
}

#[test]
fn out_of_bounds_write_traps_and_spares_later_calls() {
    let mut c = cache();
    let d = err_of(c.proc_macro(&b"smash".to_vec(), &Vec::new()));
    assert_eq!(d.kind, DiagKind::GuestTrap(TrapKind::MemoryOutOfBounds));
    // A later, unrelated call on the same cache is unaffected.
    let input = sample_stream();
    let out = ok_of(c.proc_macro(&b"identity".to_vec(), &input));
    assert!(stream_eq(&input, &out));
}

#[test]
fn guest_abort_becomes_a_diagnostic() {
    let mut c = cache();
    let d = err_of(c.proc_macro(&b"abort".to_vec(), &Vec::new()));
    assert_eq!(d.kind, DiagKind::GuestTrap(TrapKind::ExplicitAbort));
    assert!(d.detail.is_empty());
}

#[test]
fn guest_reported_error_becomes_a_diagnostic() {
    let mut c = cache();
    let d = err_of(c.proc_macro(&b"reporterr".to_vec(), &Vec::new()));
    assert_eq!(d.kind, DiagKind::GuestError);
    assert!(d.detail.is_empty());
    assert!(d.span.is_none());
}

#[test]
fn guest_error_with_span_reaches_the_caller_verbatim() {
    let mut c = cache();
    let d = err_of(c.proc_macro(&b"spanerr".to_vec(), &Vec::new()));
    assert_eq!(d.kind, DiagKind::GuestError);
    assert_eq!(d.detail, b"bad".to_vec());
    assert_eq!(d.span, Some(Span { lo: 7, hi: 9 }));
}

#[test]
fn inner_calls_run_through_the_frame_stack() {
    let mut c = cache();
    let input = sample_stream();
    let out = ok_of(c.proc_macro(&b"indirect".to_vec(), &input));
    assert!(stream_eq(&input, &out));
}

#[test]
fn branches_and_jumps_run() {
    let mut c = cache();
    let input = sample_stream();
    let out = ok_of(c.proc_macro(&b"countdown".to_vec(), &input));
    assert!(stream_eq(&input, &out));
}

#[test]
fn memory_growth_from_the_host_table_runs() {
    let mut c = cache();
    let input = sample_stream();
    let out = ok_of(c.proc_macro(&b"grower".to_vec(), &input));
    assert!(stream_eq(&input, &out));
}

#[test]
fn a_cache_serves_many_calls() {
    let mut c = cache();
    for round in 0..3 {
        let input = vec![Token::Literal(format!("{}", round).into_bytes(), Span {
            lo: round,
            hi: round + 1,
        })];
        let out = ok_of(c.proc_macro(&b"identity".to_vec(), &input));
        assert!(stream_eq(&input, &out));
    }
}

#[test]
fn a_malformed_blob_fails_once_and_stays_failed() {
    let mut c = ModuleCache::new(vec![1, 2, 3]);
    let d1 = err_of(c.proc_macro(&b"identity".to_vec(), &Vec::new()));
    assert_eq!(d1.kind, DiagKind::MalformedModule);
    // The diagnostic identifies the offending section and byte offset.
    assert_eq!(
        d1.module_error,
        Some(MalformedModule { section: Section::Header, offset: 0 })
    );
    // The cached failure is re-surfaced verbatim, not re-diagnosed.
    let d2 = err_of(c.proc_macro(&b"identity".to_vec(), &Vec::new()));
    assert_eq!(d2.kind, DiagKind::MalformedModule);
    assert_eq!(d2.module_error, d1.module_error);
}

#[test]
fn a_malformed_blob_diagnostic_names_the_failing_section() {
    // A module that is structurally wrong deeper in: an export pointing
    // at a function the table does not have.
    let blob = build(
        &[(2, 2)],
        &[Func { ty: 0, locals: 0, code: vec![] }],
        &[Exp { kind: 1, name: b"ghost", func: 5 }],
        (1, 4),
    );
    let mut c = ModuleCache::new(blob);
    let d = err_of(c.proc_macro(&b"ghost".to_vec(), &Vec::new()));
    assert_eq!(d.kind, DiagKind::MalformedModule);
    let e = d.module_error.expect("the parse failure must be carried");
    assert_eq!(e.section, Section::Exports);
}

#[test]
fn popping_an_empty_stack_traps() {
    let mut c = cache();
    let d = err_of(c.proc_macro(&b"popper".to_vec(), &Vec::new()));
    assert_eq!(d.kind, DiagKind::GuestTrap(TrapKind::StackViolation));
}

#[test]
fn returning_too_few_values_traps() {
    let mut c = cache();
    let d = err_of(c.proc_macro(&b"tightlipped".to_vec(), &Vec::new()));
    assert_eq!(d.kind, DiagKind::GuestTrap(TrapKind::SignatureMismatch));
}

#[test]
fn result_buffer_outside_memory_is_malformed_output() {
    let mut c = cache();
    let d = err_of(c.proc_macro(&b"hugeout".to_vec(), &Vec::new()));
    assert_eq!(d.kind, DiagKind::MalformedOutput);
}

#[test]
fn unreadable_result_buffer_is_malformed_output() {
    let mut c = cache();
    let d = err_of(c.proc_macro(&b"badout".to_vec(), &Vec::new()));
    assert_eq!(d.kind, DiagKind::MalformedOutput);
}

#[test]
fn entry_with_wrong_signature_is_refused() {
    let mut c = cache();
    let d = err_of(c.proc_macro(&b"badsig".to_vec(), &Vec::new()));
    assert_eq!(d.kind, DiagKind::BadEntrySignature);
}

#[test]
fn input_beyond_the_memory_ceiling_is_refused() {
    let mut c = cache();
    // The module's ceiling is 8 pages; half a megabyte of literal text
    // cannot be placed.
    let huge = vec![Token::Literal(vec![b'9'; 600_000], Span { lo: 0, hi: 1 })];
    let d = err_of(c.proc_macro(&b"identity".to_vec(), &huge));
    assert_eq!(d.kind, DiagKind::InputTooLarge);
}

#[test]
fn linear_memory_is_bounds_checked_and_growable() {
    let mut mem = Memory::new(1, 2);
    assert_eq!(mem.size(), 65536);
    assert!(mem.store8(100, 0xCD));
    assert_eq!(mem.load8(100), Some(0xCD));
    assert_eq!(mem.load8(65536), None);
    assert!(!mem.store8(65536, 1));
    // Growth succeeds up to the maximum and reports the old page count.
    assert_eq!(mem.grow(1), 1);
    assert_eq!(mem.size(), 131072);
    assert!(mem.store8(65536, 9));
    assert_eq!(mem.load8(65536), Some(9));
    // Growth past the maximum fails without affecting the memory.
    assert_eq!(mem.grow(1), GROW_FAIL);
    assert_eq!(mem.size(), 131072);
    assert_eq!(mem.load8(100), Some(0xCD));
}

#[test]
fn typed_loads_and_stores_are_little_endian() {
    let mut mem = Memory::new(1, 1);
    assert!(mem.store64(8, 0x1122_3344_5566_7788));
    assert_eq!(mem.load8(8), Some(0x88));
    assert_eq!(mem.load16(8), Some(0x7788));
    assert_eq!(mem.load32(8), Some(0x5566_7788));
    assert_eq!(mem.load64(8), Some(0x1122_3344_5566_7788));
    assert!(mem.store16(0, 0xBEEF));
    assert_eq!(mem.load8(0), Some(0xEF));
    assert_eq!(mem.load8(1), Some(0xBE));
    assert!(mem.store32(4, 0xA1B2_C3D4));
    assert_eq!(mem.load32(4), Some(0xA1B2_C3D4));
}
