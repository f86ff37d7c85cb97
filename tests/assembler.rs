use rchip8::assembler::{assemble, parse};
use rchip8::compiler::{AsmError, ProgElement};
use rchip8::disassemble::disassemble;
use rchip8::machine::Chip8Machine;

#[test]
fn each_mnemonic_round_trips_through_the_disassembler() {
    let cases = [
        ("clr", "clr"),
        ("retn", "retn"),
        ("mc 0x162", "mc      162"),
        ("jmp 0x20e", "jmp     20e"),
        ("jmpv 0x20e", "jmpv    20e"),
        ("call 768", "call    300"),
        ("skipeq V1, 0x42", "skipeq  V1, 42"),
        ("skipeq V1, V2", "skipeq  V1, V2"),
        ("skipne V1, 5", "skipne  V1, 05"),
        ("skipne V1, V2", "skipne  V1, V2"),
        ("mov V3, 0x2f", "mov     V3, 2f"),
        ("mov V3, V4", "mov     V3, V4"),
        ("mov I, 0x300", "mov     I, 300"),
        ("mov V3, D", "mov     V3, D"),
        ("mov D, V3", "mov     D, V3"),
        ("mov S, V3", "mov     S, V3"),
        ("add V3, 1", "add     V3, 01"),
        ("add V3, V4", "add     V3, V4"),
        ("add I, V3", "add     I, V3"),
        ("or V1, V2", "or      V1, V2"),
        ("and V1, V2", "and     V1, V2"),
        ("xor V1, V2", "xor     V1, V2"),
        ("sub V1, V2", "sub     V1, V2"),
        ("subr V1, V2", "subr    V1, V2"),
        ("shl V1, V2", "shl     V1, V2"),
        ("shr V1, V2", "shr     V1, V2"),
        ("rand V1, 0xff", "rand    V1, ff"),
        ("draw V1, Va, 5", "draw    V1, Va, 5"),
        ("skipeqk V4", "skipeqk V4"),
        ("skipnek V4", "skipnek V4"),
        ("read V4", "read    V4"),
        ("font V4", "font    V4"),
        ("bcd V4", "bcd     V4"),
        ("str V4", "str     V4"),
        ("load VF", "load    Vf"),
    ];
    for (src, text) in cases {
        let rom = assemble(src).unwrap();
        assert_eq!(rom.len(), 2, "{}", src);
        let code = (rom[0] as u16) << 8 | rom[1] as u16;
        let inst = Chip8Machine::decode(code).unwrap();
        assert_eq!(disassemble(None, inst), text, "{}", src);
    }
}

#[test]
fn label_jump_assembles_at_origin() {
    assert_eq!(assemble("L: jmp L").unwrap(), vec![0x12, 0x00]);
}

#[test]
fn data_comments_and_labels() {
    let src = "; a table first\nstart: .data 1 2 0xff ; three bytes\n  clr\nloop:\n  call start\n  jmp loop\n";
    assert_eq!(
        assemble(src).unwrap(),
        vec![1, 2, 0xff, 0x00, 0xe0, 0x22, 0x00, 0x12, 0x05]
    );
}

#[test]
fn parse_keeps_every_label_of_an_element() {
    let prog = parse("a: b: clr").unwrap();
    assert_eq!(prog.len(), 1);
    match &prog[0] {
        ProgElement::LabelInstr(a, inner) => {
            assert_eq!(a, "a");
            match inner.as_ref() {
                ProgElement::LabelInstr(b, core) => {
                    assert_eq!(b, "b");
                    assert!(matches!(core.as_ref(), ProgElement::Instr(0x00e0)));
                }
                other => panic!("unexpected {:?}", other),
            }
        }
        other => panic!("unexpected {:?}", other),
    }
}

#[test]
fn syntax_errors_point_at_the_word() {
    assert!(matches!(assemble("bogus"), Err(AsmError::Syntax(0))));
    assert!(matches!(assemble("clr\nmov V1"), Err(AsmError::Syntax(4))));
    assert!(matches!(assemble("draw V1, V2, 16"), Err(AsmError::Syntax(0))));
    assert!(matches!(assemble("clr .data 256"), Err(AsmError::Syntax(4))));
    assert!(matches!(assemble("mov V1, 0x100"), Err(AsmError::Syntax(0))));
    assert!(matches!(assemble("jmp 0x1000"), Err(AsmError::Syntax(0))));
    assert!(matches!(assemble("clr\nend:"), Err(AsmError::Syntax(8))));
}

#[test]
fn label_errors_come_from_layout() {
    assert!(matches!(assemble("a: clr a: retn"), Err(AsmError::DuplicateLabel(_))));
    match assemble("jmp nowhere") {
        Err(AsmError::UnresolvedLabel(l)) => assert_eq!(l, "nowhere"),
        other => panic!("unexpected {:?}", other),
    }
}
