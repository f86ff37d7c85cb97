//! The CHIP-8 instruction set, its encoding as 16-bit opcodes and its decoding.

use vstd::prelude::*;

use crate::hilo::HiLo;

verus! {

/// One decoded CHIP-8 instruction. Register operands are indices `0..16`,
/// `u8` operands are immediates and `usize` addresses are 12-bit.
#[derive(Debug, Clone, Copy, PartialEq, Eq, Structural)]
pub enum Chip8Inst {
    /// Set all display bits to false.
    ClearScreen,
    /// Draw some rows of the sprite at the index register.
    Display(usize, usize, u8),
    /// Call the machine language routine at the specified address.
    MachineInst(usize),
    /// Jump to the specified address.
    Jump(usize),
    /// Jump to the address found by adding the given value to V0.
    JumpReg(usize),
    /// Call the subroutine that begins at the specified address.
    SubCall(usize),
    /// Return from the current subroutine.
    SubReturn,
    /// Skip the next instruction if a register is equal to a constant value.
    SkipEqConst(usize, u8),
    /// Skip the next instruction if a register is not equal to a constant value.
    SkipNeqConst(usize, u8),
    /// Skip the next instruction if two registers are equal.
    SkipEqReg(usize, usize),
    /// Skip the next instruction if two registers are not equal.
    SkipNeqReg(usize, usize),
    /// Set a register to a constant value.
    RegSet(usize, u8),
    /// Add a constant to the value of a register, ignoring any carries.
    RegAddNoCarry(usize, u8),
    /// Set one register to another register.
    Assign(usize, usize),
    /// Set one register to the bitwise-OR of two registers.
    BinOr(usize, usize),
    /// Set one register to the bitwise-AND of two registers.
    BinAnd(usize, usize),
    /// Set one register to the bitwise-XOR of two registers.
    BinXor(usize, usize),
    /// Add two registers together, respecting carrying.
    ArithAdd(usize, usize),
    /// Subtract two registers, respecting borrowing.
    ArithSub(usize, usize),
    /// Subtract two registers in reverse order.
    ArithSubReverse(usize, usize),
    /// Logically shift a register left.
    ShiftLeft(usize, usize),
    /// Logically shift a register right.
    ShiftRight(usize, usize),
    /// Get the current value of the delay timer.
    ReadDelay(usize),
    /// Set the value of the delay timer.
    SetDelay(usize),
    /// Set the value of the sound timer.
    SetSound(usize),
    /// Set the index register.
    SetIndex(usize),
    /// Add a register to the index register.
    AddIndex(usize),
    /// Set a register to a random value bitwise-ANDed with a constant.
    Random(usize, u8),
    /// Skip the next instruction if a specified key is being pressed.
    SkipEqKey(usize),
    /// Skip the next instruction if a specified key is not being pressed.
    SkipNeqKey(usize),
    /// Block until a key is pressed and released.
    GetKey(usize),
    /// Point the index register at the glyph of a hex digit.
    LoadFont(usize),
    /// Write the binary-coded decimal representation of a register into memory.
    BCDConvert(usize),
    /// Write the contents of several registers to sequential locations in memory.
    StoreMem(usize),
    /// Read several locations in memory into sequential registers.
    LoadMem(usize),
}

/// The operands of an instruction fit their fields.
pub open spec fn valid_inst(inst: Chip8Inst) -> bool {
    match inst {
        Chip8Inst::ClearScreen | Chip8Inst::SubReturn => true,
        Chip8Inst::Display(x, y, n) => x < 16 && y < 16 && n < 16,
        Chip8Inst::MachineInst(a) | Chip8Inst::Jump(a) | Chip8Inst::JumpReg(a)
        | Chip8Inst::SubCall(a) | Chip8Inst::SetIndex(a) => a < 0x1000,
        Chip8Inst::SkipEqConst(x, _) | Chip8Inst::SkipNeqConst(x, _) | Chip8Inst::RegSet(x, _)
        | Chip8Inst::RegAddNoCarry(x, _) | Chip8Inst::Random(x, _) => x < 16,
        Chip8Inst::SkipEqReg(x, y) | Chip8Inst::SkipNeqReg(x, y) | Chip8Inst::Assign(x, y)
        | Chip8Inst::BinOr(x, y) | Chip8Inst::BinAnd(x, y) | Chip8Inst::BinXor(x, y)
        | Chip8Inst::ArithAdd(x, y) | Chip8Inst::ArithSub(x, y)
        | Chip8Inst::ArithSubReverse(x, y) | Chip8Inst::ShiftLeft(x, y)
        | Chip8Inst::ShiftRight(x, y) => x < 16 && y < 16,
        Chip8Inst::ReadDelay(x) | Chip8Inst::SetDelay(x) | Chip8Inst::SetSound(x)
        | Chip8Inst::AddIndex(x) | Chip8Inst::SkipEqKey(x) | Chip8Inst::SkipNeqKey(x)
        | Chip8Inst::GetKey(x) | Chip8Inst::LoadFont(x) | Chip8Inst::BCDConvert(x)
        | Chip8Inst::StoreMem(x) | Chip8Inst::LoadMem(x) => x < 16,
    }
}

/// An opcode with a 12-bit address operand.
pub open spec fn pack_nnn(a: int, nnn: int) -> int {
    a * 0x1000 + nnn % 0x1000
}

/// An opcode with a register and an 8-bit immediate.
pub open spec fn pack_xnn(a: int, x: int, nn: int) -> int {
    a * 0x1000 + (x % 16) * 0x100 + nn
}

/// An opcode with three nibble operands.
pub open spec fn pack_xyn(a: int, x: int, y: int, n: int) -> int {
    a * 0x1000 + (x % 16) * 0x100 + (y % 16) * 0x10 + n % 16
}

/// The opcode of an instruction. Operands wider than their field lose their
/// high bits.
pub open spec fn encode_spec(inst: Chip8Inst) -> u16 {
    (match inst {
        Chip8Inst::ClearScreen => 0x00e0,
        Chip8Inst::SubReturn => 0x00ee,
        Chip8Inst::MachineInst(nnn) => pack_nnn(0x0, nnn as int),
        Chip8Inst::Jump(nnn) => pack_nnn(0x1, nnn as int),
        Chip8Inst::SubCall(nnn) => pack_nnn(0x2, nnn as int),
        Chip8Inst::SkipEqConst(x, nn) => pack_xnn(0x3, x as int, nn as int),
        Chip8Inst::SkipNeqConst(x, nn) => pack_xnn(0x4, x as int, nn as int),
        Chip8Inst::SkipEqReg(x, y) => pack_xyn(0x5, x as int, y as int, 0x0),
        Chip8Inst::RegSet(x, nn) => pack_xnn(0x6, x as int, nn as int),
        Chip8Inst::RegAddNoCarry(x, nn) => pack_xnn(0x7, x as int, nn as int),
        Chip8Inst::Assign(x, y) => pack_xyn(0x8, x as int, y as int, 0x0),
        Chip8Inst::BinOr(x, y) => pack_xyn(0x8, x as int, y as int, 0x1),
        Chip8Inst::BinAnd(x, y) => pack_xyn(0x8, x as int, y as int, 0x2),
        Chip8Inst::BinXor(x, y) => pack_xyn(0x8, x as int, y as int, 0x3),
        Chip8Inst::ArithAdd(x, y) => pack_xyn(0x8, x as int, y as int, 0x4),
        Chip8Inst::ArithSub(x, y) => pack_xyn(0x8, x as int, y as int, 0x5),
        Chip8Inst::ShiftRight(x, y) => pack_xyn(0x8, x as int, y as int, 0x6),
        Chip8Inst::ArithSubReverse(x, y) => pack_xyn(0x8, x as int, y as int, 0x7),
        Chip8Inst::ShiftLeft(x, y) => pack_xyn(0x8, x as int, y as int, 0xe),
        Chip8Inst::SkipNeqReg(x, y) => pack_xyn(0x9, x as int, y as int, 0x0),
        Chip8Inst::SetIndex(nnn) => pack_nnn(0xa, nnn as int),
        Chip8Inst::JumpReg(nnn) => pack_nnn(0xb, nnn as int),
        Chip8Inst::Random(x, nn) => pack_xnn(0xc, x as int, nn as int),
        Chip8Inst::Display(x, y, n) => pack_xyn(0xd, x as int, y as int, n as int),
        Chip8Inst::SkipEqKey(x) => pack_xnn(0xe, x as int, 0x9e),
        Chip8Inst::SkipNeqKey(x) => pack_xnn(0xe, x as int, 0xa1),
        Chip8Inst::ReadDelay(x) => pack_xnn(0xf, x as int, 0x07),
        Chip8Inst::GetKey(x) => pack_xnn(0xf, x as int, 0x0a),
        Chip8Inst::SetDelay(x) => pack_xnn(0xf, x as int, 0x15),
        Chip8Inst::SetSound(x) => pack_xnn(0xf, x as int, 0x18),
        Chip8Inst::AddIndex(x) => pack_xnn(0xf, x as int, 0x1e),
        Chip8Inst::LoadFont(x) => pack_xnn(0xf, x as int, 0x29),
        Chip8Inst::BCDConvert(x) => pack_xnn(0xf, x as int, 0x33),
        Chip8Inst::StoreMem(x) => pack_xnn(0xf, x as int, 0x55),
        Chip8Inst::LoadMem(x) => pack_xnn(0xf, x as int, 0x65),
    }) as u16
}

/// What an opcode decodes to: its high nibble `a`, then `x`, `y`, `n` and the
/// immediates `nn` (low byte) and `nnn` (low 12 bits) pick the instruction.
pub open spec fn decode_spec(code: u16) -> Result<Chip8Inst, ()> {
    let a = code / 0x1000;
    let x = ((code / 0x100) % 16) as usize;
    let y = ((code / 0x10) % 16) as usize;
    let n = code % 16;
    let nn = (code % 0x100) as u8;
    let nnn = (code % 0x1000) as usize;
    if a == 0x0 {
        if nnn == 0x0e0 {
            Ok(Chip8Inst::ClearScreen)
        } else if nnn == 0x0ee {
            Ok(Chip8Inst::SubReturn)
        } else {
            Ok(Chip8Inst::MachineInst(nnn))
        }
    } else if a == 0x1 {
        Ok(Chip8Inst::Jump(nnn))
    } else if a == 0x2 {
        Ok(Chip8Inst::SubCall(nnn))
    } else if a == 0x3 {
        Ok(Chip8Inst::SkipEqConst(x, nn))
    } else if a == 0x4 {
        Ok(Chip8Inst::SkipNeqConst(x, nn))
    } else if a == 0x5 {
        if n == 0 { Ok(Chip8Inst::SkipEqReg(x, y)) } else { Err(()) }
    } else if a == 0x6 {
        Ok(Chip8Inst::RegSet(x, nn))
    } else if a == 0x7 {
        Ok(Chip8Inst::RegAddNoCarry(x, nn))
    } else if a == 0x8 {
        if n == 0x0 {
            Ok(Chip8Inst::Assign(x, y))
        } else if n == 0x1 {
            Ok(Chip8Inst::BinOr(x, y))
        } else if n == 0x2 {
            Ok(Chip8Inst::BinAnd(x, y))
        } else if n == 0x3 {
            Ok(Chip8Inst::BinXor(x, y))
        } else if n == 0x4 {
            Ok(Chip8Inst::ArithAdd(x, y))
        } else if n == 0x5 {
            Ok(Chip8Inst::ArithSub(x, y))
        } else if n == 0x6 {
            Ok(Chip8Inst::ShiftRight(x, y))
        } else if n == 0x7 {
            Ok(Chip8Inst::ArithSubReverse(x, y))
        } else if n == 0xe {
            Ok(Chip8Inst::ShiftLeft(x, y))
        } else {
            Err(())
        }
    } else if a == 0x9 {
        if n == 0 { Ok(Chip8Inst::SkipNeqReg(x, y)) } else { Err(()) }
    } else if a == 0xa {
        Ok(Chip8Inst::SetIndex(nnn))
    } else if a == 0xb {
        Ok(Chip8Inst::JumpReg(nnn))
    } else if a == 0xc {
        Ok(Chip8Inst::Random(x, nn))
    } else if a == 0xd {
        Ok(Chip8Inst::Display(x, y, n as u8))
    } else if a == 0xe {
        if nn == 0x9e {
            Ok(Chip8Inst::SkipEqKey(x))
        } else if nn == 0xa1 {
            Ok(Chip8Inst::SkipNeqKey(x))
        } else {
            Err(())
        }
    } else {
        if nn == 0x07 {
            Ok(Chip8Inst::ReadDelay(x))
        } else if nn == 0x0a {
            Ok(Chip8Inst::GetKey(x))
        } else if nn == 0x15 {
            Ok(Chip8Inst::SetDelay(x))
        } else if nn == 0x18 {
            Ok(Chip8Inst::SetSound(x))
        } else if nn == 0x1e {
            Ok(Chip8Inst::AddIndex(x))
        } else if nn == 0x29 {
            Ok(Chip8Inst::LoadFont(x))
        } else if nn == 0x33 {
            Ok(Chip8Inst::BCDConvert(x))
        } else if nn == 0x55 {
            Ok(Chip8Inst::StoreMem(x))
        } else if nn == 0x65 {
            Ok(Chip8Inst::LoadMem(x))
        } else {
            Err(())
        }
    }
}

fn pack_nnn_exec(a: u16, nnn: usize) -> (r: u16)
    requires
        a < 16,
    ensures
        r as int == pack_nnn(a as int, nnn as int),
{
    a * 0x1000 + (nnn % 0x1000) as u16
}

fn pack_xnn_exec(a: u16, x: usize, nn: u8) -> (r: u16)
    requires
        a < 16,
    ensures
        r as int == pack_xnn(a as int, x as int, nn as int),
{
    a * 0x1000 + (x % 16) as u16 * 0x100 + nn as u16
}

fn pack_xyn_exec(a: u16, x: usize, y: usize, n: u8) -> (r: u16)
    requires
        a < 16,
    ensures
        r as int == pack_xyn(a as int, x as int, y as int, n as int),
{
    a * 0x1000 + (x % 16) as u16 * 0x100 + (y % 16) as u16 * 0x10 + (n % 16) as u16
}

impl From<Chip8Inst> for u16 {
    /// The opcode of an instruction.
    fn from(inst: Chip8Inst) -> (r: u16)
        ensures
            r == encode_spec(inst),
    {
        match inst {
            Chip8Inst::ClearScreen => 0x00e0,
            Chip8Inst::SubReturn => 0x00ee,
            Chip8Inst::MachineInst(nnn) => pack_nnn_exec(0x0, nnn),
            Chip8Inst::Jump(nnn) => pack_nnn_exec(0x1, nnn),
            Chip8Inst::SubCall(nnn) => pack_nnn_exec(0x2, nnn),
            Chip8Inst::SkipEqConst(x, nn) => pack_xnn_exec(0x3, x, nn),
            Chip8Inst::SkipNeqConst(x, nn) => pack_xnn_exec(0x4, x, nn),
            Chip8Inst::SkipEqReg(x, y) => pack_xyn_exec(0x5, x, y, 0x0),
            Chip8Inst::RegSet(x, nn) => pack_xnn_exec(0x6, x, nn),
            Chip8Inst::RegAddNoCarry(x, nn) => pack_xnn_exec(0x7, x, nn),
            Chip8Inst::Assign(x, y) => pack_xyn_exec(0x8, x, y, 0x0),
            Chip8Inst::BinOr(x, y) => pack_xyn_exec(0x8, x, y, 0x1),
            Chip8Inst::BinAnd(x, y) => pack_xyn_exec(0x8, x, y, 0x2),
            Chip8Inst::BinXor(x, y) => pack_xyn_exec(0x8, x, y, 0x3),
            Chip8Inst::ArithAdd(x, y) => pack_xyn_exec(0x8, x, y, 0x4),
            Chip8Inst::ArithSub(x, y) => pack_xyn_exec(0x8, x, y, 0x5),
            Chip8Inst::ShiftRight(x, y) => pack_xyn_exec(0x8, x, y, 0x6),
            Chip8Inst::ArithSubReverse(x, y) => pack_xyn_exec(0x8, x, y, 0x7),
            Chip8Inst::ShiftLeft(x, y) => pack_xyn_exec(0x8, x, y, 0xe),
            Chip8Inst::SkipNeqReg(x, y) => pack_xyn_exec(0x9, x, y, 0x0),
            Chip8Inst::SetIndex(nnn) => pack_nnn_exec(0xa, nnn),
            Chip8Inst::JumpReg(nnn) => pack_nnn_exec(0xb, nnn),
            Chip8Inst::Random(x, nn) => pack_xnn_exec(0xc, x, nn),
            Chip8Inst::Display(x, y, n) => pack_xyn_exec(0xd, x, y, n),
            Chip8Inst::SkipEqKey(x) => pack_xnn_exec(0xe, x, 0x9e),
            Chip8Inst::SkipNeqKey(x) => pack_xnn_exec(0xe, x, 0xa1),
            Chip8Inst::ReadDelay(x) => pack_xnn_exec(0xf, x, 0x07),
            Chip8Inst::GetKey(x) => pack_xnn_exec(0xf, x, 0x0a),
            Chip8Inst::SetDelay(x) => pack_xnn_exec(0xf, x, 0x15),
            Chip8Inst::SetSound(x) => pack_xnn_exec(0xf, x, 0x18),
            Chip8Inst::AddIndex(x) => pack_xnn_exec(0xf, x, 0x1e),
            Chip8Inst::LoadFont(x) => pack_xnn_exec(0xf, x, 0x29),
            Chip8Inst::BCDConvert(x) => pack_xnn_exec(0xf, x, 0x33),
            Chip8Inst::StoreMem(x) => pack_xnn_exec(0xf, x, 0x55),
            Chip8Inst::LoadMem(x) => pack_xnn_exec(0xf, x, 0x65),
        }
    }
}

impl vstd::std_specs::convert::FromSpecImpl<Chip8Inst> for u16 {
    open spec fn obeys_from_spec() -> bool {
        true
    }

    open spec fn from_spec(inst: Chip8Inst) -> u16 {
        encode_spec(inst)
    }
}

/// Decoding then encoding gives back the opcode: every opcode either decodes
/// to an instruction whose encoding is that opcode, or fails to decode.
#[verifier::rlimit(60)]
pub proof fn lemma_decode_encode(code: u16)
    ensures
        decode_spec(code) matches Ok(inst) ==> encode_spec(inst) == code,
{
    let c = code as int;
    let a = c / 0x1000;
    let x = (c / 0x100) % 16;
    let y = (c / 0x10) % 16;
    let n = c % 16;
    assert(c == a * 0x1000 + c % 0x1000 && c % 0x1000 == x * 0x100 + c % 0x100 && c % 0x100
        == y * 0x10 + n && 0 <= a < 16) by (nonlinear_arith)
        requires
            0 <= c < 0x10000,
            a == c / 0x1000,
            x == (c / 0x100) % 16,
            y == (c / 0x10) % 16,
            n == c % 16,
    ;
    assert(pack_nnn(a, c % 0x1000) == c);
    assert(pack_xnn(a, x, c % 0x100) == c);
    assert(pack_xyn(a, x, y, n) == c);
}

/// Encoding then decoding gives back any instruction whose operands fit
/// their fields, but for the two machine routines whose opcodes are those of
/// `ClearScreen` and `SubReturn`.
pub proof fn lemma_encode_decode(inst: Chip8Inst)
    requires
        valid_inst(inst),
        inst != Chip8Inst::MachineInst(0x0e0),
        inst != Chip8Inst::MachineInst(0x0ee),
    ensures
        decode_spec(encode_spec(inst)) == Ok::<Chip8Inst, ()>(inst),
{
    match inst {
        Chip8Inst::ClearScreen | Chip8Inst::SubReturn | Chip8Inst::MachineInst(_)
        | Chip8Inst::Jump(_) | Chip8Inst::SubCall(_) | Chip8Inst::SetIndex(_)
        | Chip8Inst::JumpReg(_) => lemma_encode_decode_addr(inst),
        Chip8Inst::SkipEqConst(_, _) | Chip8Inst::SkipNeqConst(_, _) | Chip8Inst::RegSet(_, _)
        | Chip8Inst::RegAddNoCarry(_, _) | Chip8Inst::Random(_, _) | Chip8Inst::Display(_, _, _) => {
            lemma_encode_decode_imm(inst)
        },
        Chip8Inst::SkipEqReg(_, _) | Chip8Inst::Assign(_, _) | Chip8Inst::BinOr(_, _)
        | Chip8Inst::BinAnd(_, _) | Chip8Inst::BinXor(_, _) | Chip8Inst::ArithAdd(_, _) => {
            lemma_encode_decode_regs(inst)
        },
        Chip8Inst::ArithSub(_, _) | Chip8Inst::ShiftRight(_, _) | Chip8Inst::ArithSubReverse(_, _)
        | Chip8Inst::ShiftLeft(_, _) | Chip8Inst::SkipNeqReg(_, _) => {
            lemma_encode_decode_arith(inst)
        },
        _ => lemma_encode_decode_one(inst),
    }
}

/// Instructions with no operand or an address operand.
proof fn lemma_encode_decode_addr(inst: Chip8Inst)
    requires
        valid_inst(inst),
        inst != Chip8Inst::MachineInst(0x0e0),
        inst != Chip8Inst::MachineInst(0x0ee),
        inst is ClearScreen || inst is SubReturn || inst is MachineInst || inst is Jump
            || inst is SubCall || inst is SetIndex || inst is JumpReg,
    ensures
        decode_spec(encode_spec(inst)) == Ok::<Chip8Inst, ()>(inst),
{
    match inst {
        Chip8Inst::ClearScreen => lemma_unpack(0x0, 0x0, 0xe, 0x0),
        Chip8Inst::SubReturn => lemma_unpack(0x0, 0x0, 0xe, 0xe),
        Chip8Inst::MachineInst(a) => lemma_unpack_addr(0x0, a as int),
        Chip8Inst::Jump(a) => lemma_unpack_addr(0x1, a as int),
        Chip8Inst::SubCall(a) => lemma_unpack_addr(0x2, a as int),
        Chip8Inst::SetIndex(a) => lemma_unpack_addr(0xa, a as int),
        Chip8Inst::JumpReg(a) => lemma_unpack_addr(0xb, a as int),
        _ => {},
    }
}

/// Instructions with an immediate operand, and sprite drawing.
#[verifier::rlimit(100)]
proof fn lemma_encode_decode_imm(inst: Chip8Inst)
    requires
        valid_inst(inst),
        inst is SkipEqConst || inst is SkipNeqConst || inst is RegSet || inst is RegAddNoCarry
            || inst is Random || inst is Display,
    ensures
        decode_spec(encode_spec(inst)) == Ok::<Chip8Inst, ()>(inst),
{
    match inst {
        Chip8Inst::SkipEqConst(x, nn) => lemma_unpack(0x3, x as int, nn as int / 16, nn as int % 16),
        Chip8Inst::SkipNeqConst(x, nn) => lemma_unpack(0x4, x as int, nn as int / 16, nn as int % 16),
        Chip8Inst::RegSet(x, nn) => lemma_unpack(0x6, x as int, nn as int / 16, nn as int % 16),
        Chip8Inst::RegAddNoCarry(x, nn) => lemma_unpack(0x7, x as int, nn as int / 16, nn as int % 16),
        Chip8Inst::Random(x, nn) => lemma_unpack(0xc, x as int, nn as int / 16, nn as int % 16),
        Chip8Inst::Display(x, y, n) => lemma_unpack(0xd, x as int, y as int, n as int),
        _ => {},
    }
}

/// Register comparisons, copies and bitwise operations.
#[verifier::rlimit(100)]
proof fn lemma_encode_decode_regs(inst: Chip8Inst)
    requires
        valid_inst(inst),
        inst is SkipEqReg || inst is Assign || inst is BinOr || inst is BinAnd || inst is BinXor
            || inst is ArithAdd,
    ensures
        decode_spec(encode_spec(inst)) == Ok::<Chip8Inst, ()>(inst),
{
    match inst {
        Chip8Inst::SkipEqReg(x, y) => lemma_unpack(0x5, x as int, y as int, 0x0),
        Chip8Inst::Assign(x, y) => lemma_unpack(0x8, x as int, y as int, 0x0),
        Chip8Inst::BinOr(x, y) => lemma_unpack(0x8, x as int, y as int, 0x1),
        Chip8Inst::BinAnd(x, y) => lemma_unpack(0x8, x as int, y as int, 0x2),
        Chip8Inst::BinXor(x, y) => lemma_unpack(0x8, x as int, y as int, 0x3),
        Chip8Inst::ArithAdd(x, y) => lemma_unpack(0x8, x as int, y as int, 0x4),
        _ => {},
    }
}

/// Register arithmetic and shifts.
#[verifier::rlimit(100)]
proof fn lemma_encode_decode_arith(inst: Chip8Inst)
    requires
        valid_inst(inst),
        inst is ArithSub || inst is ShiftRight || inst is ArithSubReverse || inst is ShiftLeft
            || inst is SkipNeqReg,
    ensures
        decode_spec(encode_spec(inst)) == Ok::<Chip8Inst, ()>(inst),
{
    match inst {
        Chip8Inst::ArithSub(x, y) => lemma_unpack(0x8, x as int, y as int, 0x5),
        Chip8Inst::ShiftRight(x, y) => lemma_unpack(0x8, x as int, y as int, 0x6),
        Chip8Inst::ArithSubReverse(x, y) => lemma_unpack(0x8, x as int, y as int, 0x7),
        Chip8Inst::ShiftLeft(x, y) => lemma_unpack(0x8, x as int, y as int, 0xe),
        Chip8Inst::SkipNeqReg(x, y) => lemma_unpack(0x9, x as int, y as int, 0x0),
        _ => {},
    }
}

/// Instructions on one register.
proof fn lemma_encode_decode_one(inst: Chip8Inst)
    requires
        valid_inst(inst),
        inst is SkipEqKey || inst is SkipNeqKey || inst is ReadDelay || inst is GetKey
            || inst is SetDelay || inst is SetSound || inst is AddIndex || inst is LoadFont
            || inst is BCDConvert || inst is StoreMem || inst is LoadMem,
    ensures
        decode_spec(encode_spec(inst)) == Ok::<Chip8Inst, ()>(inst),
{
    match inst {
        Chip8Inst::SkipEqKey(x) => lemma_unpack(0xe, x as int, 0x9, 0xe),
        Chip8Inst::SkipNeqKey(x) => lemma_unpack(0xe, x as int, 0xa, 0x1),
        Chip8Inst::ReadDelay(x) => lemma_unpack(0xf, x as int, 0x0, 0x7),
        Chip8Inst::GetKey(x) => lemma_unpack(0xf, x as int, 0x0, 0xa),
        Chip8Inst::SetDelay(x) => lemma_unpack(0xf, x as int, 0x1, 0x5),
        Chip8Inst::SetSound(x) => lemma_unpack(0xf, x as int, 0x1, 0x8),
        Chip8Inst::AddIndex(x) => lemma_unpack(0xf, x as int, 0x1, 0xe),
        Chip8Inst::LoadFont(x) => lemma_unpack(0xf, x as int, 0x2, 0x9),
        Chip8Inst::BCDConvert(x) => lemma_unpack(0xf, x as int, 0x3, 0x3),
        Chip8Inst::StoreMem(x) => lemma_unpack(0xf, x as int, 0x5, 0x5),
        Chip8Inst::LoadMem(x) => lemma_unpack(0xf, x as int, 0x6, 0x5),
        _ => {},
    }
}

/// The fields of the opcode with high nibble `op` and address `a`.
proof fn lemma_unpack_addr(op: int, a: int)
    requires
        0 <= op < 16,
        0 <= a < 0x1000,
    ensures
        ({
            let c = op * 0x1000 + a;
            &&& c / 0x1000 == op
            &&& c % 0x1000 == a
        }),
{
    lemma_unpack(op, a / 0x100, (a / 0x10) % 16, a % 16);
}

/// The fields of the opcode with nibbles `a`, `x`, `y`, `n`.
proof fn lemma_unpack(a: int, x: int, y: int, n: int)
    requires
        0 <= a < 16,
        0 <= x < 16,
        0 <= y < 16,
        0 <= n < 16,
    ensures
        ({
            let c = a * 0x1000 + x * 0x100 + y * 0x10 + n;
            &&& c / 0x1000 == a
            &&& (c / 0x100) % 16 == x
            &&& (c / 0x10) % 16 == y
            &&& c % 16 == n
            &&& c % 0x100 == y * 0x10 + n
            &&& c % 0x1000 == x * 0x100 + y * 0x10 + n
        }),
{
    let c = a * 0x1000 + x * 0x100 + y * 0x10 + n;
    assert(c / 0x1000 == a && (c / 0x100) % 16 == x && (c / 0x10) % 16 == y && c % 16 == n
        && c % 0x100 == y * 0x10 + n && c % 0x1000 == x * 0x100 + y * 0x10 + n) by (nonlinear_arith)
        requires
            0 <= a < 16,
            0 <= x < 16,
            0 <= y < 16,
            0 <= n < 16,
            c == a * 0x1000 + x * 0x100 + y * 0x10 + n,
    ;
}

} // verus!
