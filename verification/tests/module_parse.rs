use macro_bridge::parse::{parse, MalformedModule, Section, OP_CALL, OP_LOCAL_GET, OP_NOP};

fn p32(out: &mut Vec<u8>, x: u32) {
    out.extend_from_slice(&x.to_le_bytes());
}

fn instr(out: &mut Vec<u8>, op: u8, imm: u64) {
    out.push(op);
    out.extend_from_slice(&imm.to_le_bytes());
}

struct Func {
    ty: u32,
    locals: u32,
    code: Vec<(u8, u64)>,
}

struct Exp {
    kind: u8,
    name: &'static [u8],
    func: u32,
}

fn build(types: &[(u32, u32)], funcs: &[Func], exports: &[Exp], mem: (u32, u32)) -> Vec<u8> {
    let mut b = vec![0x6d, 0x62, 0x63, 0x31];
    p32(&mut b, types.len() as u32);
    for (p, r) in types {
        p32(&mut b, *p);
        p32(&mut b, *r);
    }
    p32(&mut b, funcs.len() as u32);
    for f in funcs {
        p32(&mut b, f.ty);
        p32(&mut b, f.locals);
        p32(&mut b, f.code.len() as u32);
        for (op, imm) in &f.code {
            instr(&mut b, *op, *imm);
        }
    }
    p32(&mut b, exports.len() as u32);
    for e in exports {
        b.push(e.kind);
        p32(&mut b, e.name.len() as u32);
        b.extend_from_slice(e.name);
        p32(&mut b, e.func);
    }
    p32(&mut b, mem.0);
    p32(&mut b, mem.1);
    b
}

fn small_module() -> Vec<u8> {
    build(
        &[(2, 2)],
        &[Func { ty: 0, locals: 1, code: vec![(OP_LOCAL_GET, 0), (OP_LOCAL_GET, 1)] }],
        &[Exp { kind: 1, name: b"identity", func: 0 }],
        (1, 4),
    )
}

#[test]
fn well_formed_module_parses() {
    let m = parse(&small_module()).expect("module should parse");
    assert_eq!(m.types.len(), 1);
    assert_eq!(m.types[0].params, 2);
    assert_eq!(m.types[0].results, 2);
    assert_eq!(m.funcs.len(), 1);
    assert_eq!(m.funcs[0].locals, 1);
    assert_eq!(m.funcs[0].code.len(), 2);
    assert_eq!(m.exports.len(), 1);
    assert_eq!(m.exports[0].name, b"identity".to_vec());
    assert_eq!(m.exports[0].func, 0);
    assert_eq!(m.mem_initial, 1);
    assert_eq!(m.mem_max, 4);
}

fn expect_malformed(bytes: Vec<u8>) -> MalformedModule {
    match parse(&bytes) {
        Ok(_) => panic!("malformed module was accepted"),
        Err(e) => e,
    }
}

#[test]
fn empty_input_is_malformed() {
    let e = expect_malformed(Vec::new());
    assert_eq!(e.section, Section::Header);
}

#[test]
fn bad_magic_is_malformed() {
    let mut b = small_module();
    b[0] = 0x00;
    let e = expect_malformed(b);
    assert_eq!(e.section, Section::Header);
}

#[test]
fn truncated_module_is_malformed() {
    let full = small_module();
    for cut in [4usize, 8, 12, 20, 30, full.len() - 1] {
        expect_malformed(full[..cut].to_vec());
    }
}

#[test]
fn unknown_opcode_is_malformed() {
    let b = build(
        &[(0, 0)],
        &[Func { ty: 0, locals: 0, code: vec![(0xEE, 0)] }],
        &[],
        (0, 0),
    );
    let e = expect_malformed(b);
    assert_eq!(e.section, Section::Functions);
}

#[test]
fn signature_index_out_of_range_is_malformed() {
    let b = build(
        &[(0, 0)],
        &[Func { ty: 3, locals: 0, code: vec![] }],
        &[],
        (0, 0),
    );
    let e = expect_malformed(b);
    assert_eq!(e.section, Section::Functions);
}

#[test]
fn local_index_out_of_range_is_malformed() {
    // The function has 1 parameter and 1 scratch local: index 2 is out.
    let b = build(
        &[(1, 0)],
        &[Func { ty: 0, locals: 1, code: vec![(OP_LOCAL_GET, 2)] }],
        &[],
        (0, 0),
    );
    assert_eq!(expect_malformed(b).section, Section::Functions);
}

#[test]
fn call_target_out_of_range_is_malformed() {
    let b = build(
        &[(0, 0)],
        &[Func { ty: 0, locals: 0, code: vec![(OP_CALL, 1)] }],
        &[],
        (0, 0),
    );
    assert_eq!(expect_malformed(b).section, Section::Functions);
}

#[test]
fn export_of_absent_function_is_malformed() {
    let b = build(
        &[(0, 0)],
        &[Func { ty: 0, locals: 0, code: vec![(OP_NOP, 0)] }],
        &[Exp { kind: 1, name: b"ghostly", func: 9 }],
        (0, 0),
    );
    assert_eq!(expect_malformed(b).section, Section::Exports);
}

#[test]
fn bad_entry_kind_byte_is_malformed() {
    let b = build(
        &[(0, 0)],
        &[Func { ty: 0, locals: 0, code: vec![] }],
        &[Exp { kind: 7, name: b"what", func: 0 }],
        (0, 0),
    );
    assert_eq!(expect_malformed(b).section, Section::Exports);
}

#[test]
fn duplicate_export_names_are_malformed() {
    let b = build(
        &[(0, 0)],
        &[Func { ty: 0, locals: 0, code: vec![] }],
        &[
            Exp { kind: 1, name: b"twin", func: 0 },
            Exp { kind: 2, name: b"twin", func: 0 },
        ],
        (0, 0),
    );
    assert_eq!(expect_malformed(b).section, Section::Exports);
}

#[test]
fn initial_pages_above_maximum_is_malformed() {
    let b = build(&[], &[], &[], (5, 4));
    assert_eq!(expect_malformed(b).section, Section::Memory);
}

#[test]
fn page_ceiling_is_enforced() {
    let b = build(&[], &[], &[], (1, 100_000));
    assert_eq!(expect_malformed(b).section, Section::Memory);
}

#[test]
fn trailing_bytes_are_malformed() {
    let mut b = small_module();
    b.push(0);
    assert_eq!(expect_malformed(b).section, Section::Trailer);
}

#[test]
fn arbitrary_garbage_never_panics_the_parser() {
    // A spread of byte soups behind a valid magic: all rejected, none
    // panicking.
    let mut x: u32 = 0x12345678;
    for round in 0..64usize {
        let mut soup: Vec<u8> = vec![0x6d, 0x62, 0x63, 0x31];
        for _ in 0..(round * 7) {
            x = x.wrapping_mul(1664525).wrapping_add(1013904223);
            soup.push((x >> 24) as u8);
        }
        assert!(parse(&soup).is_err());
    }
    let mut b = vec![0x6d, 0x62, 0x63, 0x31];
    b.extend_from_slice(&[0xFF; 40]);
    assert!(parse(&b).is_err());
}
