use rchip8::disassemble::disassemble;
use rchip8::insts::Chip8Inst;
use rchip8::machine::Chip8Machine;

#[test]
fn disassembles_each_operand_shape() {
    assert_eq!(disassemble(None, Chip8Inst::ClearScreen), "clr");
    assert_eq!(disassemble(None, Chip8Inst::Display(1, 0xa, 5)), "draw    V1, Va, 5");
    assert_eq!(disassemble(None, Chip8Inst::Jump(0x20e)), "jmp     20e");
    assert_eq!(disassemble(None, Chip8Inst::SubCall(0x0a)), "call    00a");
    assert_eq!(disassemble(None, Chip8Inst::SkipEqConst(3, 0x7)), "skipeq  V3, 07");
    assert_eq!(disassemble(None, Chip8Inst::ArithAdd(3, 0xf)), "add     V3, Vf");
    assert_eq!(disassemble(None, Chip8Inst::ReadDelay(2)), "mov     V2, D");
    assert_eq!(disassemble(None, Chip8Inst::SetSound(2)), "mov     S, V2");
    assert_eq!(disassemble(None, Chip8Inst::AddIndex(0xa)), "add     I, Va");
    assert_eq!(disassemble(None, Chip8Inst::MachineInst(0x162)), "mc      162");
    assert_eq!(disassemble(None, Chip8Inst::LoadMem(9)), "load    V9");
}

#[test]
fn disassembles_with_address() {
    assert_eq!(
        disassemble(Some(0x200), Chip8Inst::Jump(0x20e)),
        "0x0200    jmp     20e"
    );
    assert_eq!(
        disassemble(Some(0x12345), Chip8Inst::SubReturn),
        "0x12345    retn"
    );
}

#[test]
fn disassembles_decoded_opcodes() {
    let cases = [
        (0x00ee, "retn"),
        (0x6a2f, "mov     Va, 2f"),
        (0x8126, "shr     V1, V2"),
        (0x812e, "shl     V1, V2"),
        (0xa2c3, "mov     I, 2c3"),
        (0xf733, "bcd     V7"),
        (0xe49e, "skipeqk V4"),
    ];
    for (code, text) in cases {
        let inst = Chip8Machine::decode(code).unwrap();
        assert_eq!(disassemble(None, inst), text);
    }
}
