use rchip8::insts::Chip8Inst;
use rchip8::machine::{Chip8Machine, Chip8Mode, DecodeError};

#[test]
fn test_decode_success() {
    let cases = vec![
        (0x0162, Chip8Inst::MachineInst(0x162)),
        (0x00e0, Chip8Inst::ClearScreen),
        (0x00ee, Chip8Inst::SubReturn),
        (0x1af2, Chip8Inst::Jump(0xaf2)),
        (0x2cc3, Chip8Inst::SubCall(0xcc3)),
        (0x3b27, Chip8Inst::SkipEqConst(0xb, 0x27)),
        (0x4b27, Chip8Inst::SkipNeqConst(0xb, 0x27)),
        (0x5c40, Chip8Inst::SkipEqReg(0xc, 0x4)),
        (0x68f5, Chip8Inst::RegSet(0x8, 0xf5)),
        (0x7b43, Chip8Inst::RegAddNoCarry(0xb, 0x43)),
        (0x83e0, Chip8Inst::Assign(0x3, 0xe)),
        (0x8d21, Chip8Inst::BinOr(0xd, 0x2)),
        (0x83e2, Chip8Inst::BinAnd(0x3, 0xe)),
        (0x87a3, Chip8Inst::BinXor(0x7, 0xa)),
        (0x87a4, Chip8Inst::ArithAdd(0x7, 0xa)),
        (0x87a5, Chip8Inst::ArithSub(0x7, 0xa)),
        (0x87a6, Chip8Inst::ShiftRight(0x7, 0xa)),
        (0x87a7, Chip8Inst::ArithSubReverse(0x7, 0xa)),
        (0x87ae, Chip8Inst::ShiftLeft(0x7, 0xa)),
        (0x9b30, Chip8Inst::SkipNeqReg(0xb, 0x3)),
        (0xa2c3, Chip8Inst::SetIndex(0x2c3)),
        (0xb2f1, Chip8Inst::JumpReg(0x2f1)),
        (0xc243, Chip8Inst::Random(0x2, 0x43)),
        (0xdf4b, Chip8Inst::Display(0xf, 0x4, 0xb)),
        (0xe49e, Chip8Inst::SkipEqKey(0x4)),
        (0xe5a1, Chip8Inst::SkipNeqKey(0x5)),
        (0xf207, Chip8Inst::ReadDelay(0x2)),
        (0xf70a, Chip8Inst::GetKey(0x7)),
        (0xf915, Chip8Inst::SetDelay(0x9)),
        (0xf218, Chip8Inst::SetSound(0x2)),
        (0xfa1e, Chip8Inst::AddIndex(0xa)),
        (0xf729, Chip8Inst::LoadFont(0x7)),
        (0xfb33, Chip8Inst::BCDConvert(0xb)),
        (0xf955, Chip8Inst::StoreMem(0x9)),
        (0xf965, Chip8Inst::LoadMem(0x9)),
    ];
    for (input, expected) in cases {
        assert_eq!(expected, Chip8Machine::decode(input).unwrap());
    }
}

#[test]
fn test_decode_fail() {
    let codes: Vec<u16> = vec![
        0x5121, 0x5122, 0x5123, 0x5124, 0x5125, 0x5126, 0x5127, 0x5128, 0x5129, 0x512a, 0x512b,
        0x512c, 0x512d, 0x512e, 0x512f, 0x82e8, 0x82e9, 0x82ea, 0x82eb, 0x82ec, 0x82ed, 0x82ef,
        0x9b31, 0x9b32, 0x9b33, 0x9b34, 0x9b35, 0x9b36, 0x9b37, 0x9b38, 0x9b39, 0x9b3a, 0x9b3b,
        0x9b3c, 0x9b3d, 0x9b3e, 0x9b3f,
    ];
    for code in codes {
        assert!(Chip8Machine::decode(code).is_err());
    }
}

#[test]
fn decode_rejects_unknown_key_and_misc_forms() {
    assert!(Chip8Machine::decode(0xe10a).is_err());
    assert!(Chip8Machine::decode(0xe1ff).is_err());
    assert!(Chip8Machine::decode(0xf1ff).is_err());
    assert!(Chip8Machine::decode(0xf100).is_err());
}

#[test]
fn decode_then_encode_gives_the_opcode_back() {
    let mut decoded: u32 = 0;
    for c in 0..=u16::MAX {
        if let Ok(inst) = Chip8Machine::decode(c) {
            assert_eq!(u16::from(inst), c);
            decoded += 1;
        }
    }
    assert_eq!(decoded, 48048);
}

#[test]
fn encode_writes_each_field() {
    assert_eq!(u16::from(Chip8Inst::Display(0xf, 0x4, 0xb)), 0xdf4b);
    assert_eq!(u16::from(Chip8Inst::SkipEqConst(0xb, 0x27)), 0x3b27);
    assert_eq!(u16::from(Chip8Inst::Jump(0xaf2)), 0x1af2);
    assert_eq!(u16::from(Chip8Inst::LoadMem(0x9)), 0xf965);
}

#[test]
fn decode_run_reports_opcode_and_address() {
    let m = Chip8Machine::new(Chip8Mode::Modern);
    assert_eq!(
        m.decode_run(0x5121),
        Err(DecodeError { opcode: 0x5121, pc: 0x200 })
    );
    assert_eq!(m.decode_run(0x00e0), Ok(Chip8Inst::ClearScreen));
}

#[test]
fn decode_error_message_names_address_and_opcode() {
    let e = DecodeError { opcode: 0x5121, pc: 0x200 };
    assert_eq!(e.message(), "Invalid instruction at 0x00000200: 0x5121");
}

#[test]
fn encode_then_decode_gives_the_instruction_back() {
    let insts = vec![
        Chip8Inst::ClearScreen,
        Chip8Inst::SubReturn,
        Chip8Inst::MachineInst(0x123),
        Chip8Inst::JumpReg(0xfff),
        Chip8Inst::Display(0xf, 0x0, 0xf),
        Chip8Inst::RegAddNoCarry(0x1, 0xff),
        Chip8Inst::ShiftLeft(0xe, 0xd),
        Chip8Inst::SkipNeqReg(0x2, 0x3),
        Chip8Inst::SkipNeqKey(0x9),
        Chip8Inst::LoadMem(0xf),
    ];
    for inst in insts {
        assert_eq!(Chip8Machine::decode(u16::from(inst)), Ok(inst));
    }
    assert_eq!(
        Chip8Machine::decode(u16::from(Chip8Inst::MachineInst(0x0e0))),
        Ok(Chip8Inst::ClearScreen)
    );
}
