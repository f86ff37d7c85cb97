//! Turning instructions back into assembly text.

use vstd::prelude::*;

use crate::insts::Chip8Inst;
use crate::machine::DecodeError;

verus! {

/// The lowercase hex digit for `d`.
pub open spec fn hex_char(d: nat) -> char {
    if d < 10 {
        ((d + 48) as u8) as char
    } else {
        ((d + 87) as u8) as char
    }
}

/// `v` in lowercase hex, zero-padded to at least `w` digits.
pub open spec fn hex(v: nat, w: nat) -> Seq<char>
    decreases v + w,
{
    if v < 16 && w <= 1 {
        seq![hex_char(v % 16)]
    } else {
        hex(v / 16, if w > 0 { (w - 1) as nat } else { 0 }) + seq![hex_char(v % 16)]
    }
}

/// A register operand.
pub open spec fn reg(x: nat) -> Seq<char> {
    "V"@ + hex(x, 1)
}

/// The assembly text of an instruction, mnemonic padded to eight columns.
pub open spec fn disasm_spec(inst: Chip8Inst) -> Seq<char> {
    match inst {
        Chip8Inst::ClearScreen => "clr"@,
        Chip8Inst::SubReturn => "retn"@,
        Chip8Inst::Display(x, y, n) => "draw    "@ + reg(x as nat) + ", "@ + reg(y as nat) + ", "@
            + hex(n as nat, 1),
        Chip8Inst::MachineInst(a) => "mc      "@ + hex(a as nat, 3),
        Chip8Inst::Jump(a) => "jmp     "@ + hex(a as nat, 3),
        Chip8Inst::JumpReg(a) => "jmpv    "@ + hex(a as nat, 3),
        Chip8Inst::SubCall(a) => "call    "@ + hex(a as nat, 3),
        Chip8Inst::SkipEqConst(x, nn) => "skipeq  "@ + reg(x as nat) + ", "@ + hex(nn as nat, 2),
        Chip8Inst::SkipNeqConst(x, nn) => "skipne  "@ + reg(x as nat) + ", "@ + hex(nn as nat, 2),
        Chip8Inst::SkipEqReg(x, y) => "skipeq  "@ + reg(x as nat) + ", "@ + reg(y as nat),
        Chip8Inst::SkipNeqReg(x, y) => "skipne  "@ + reg(x as nat) + ", "@ + reg(y as nat),
        Chip8Inst::RegSet(x, nn) => "mov     "@ + reg(x as nat) + ", "@ + hex(nn as nat, 2),
        Chip8Inst::RegAddNoCarry(x, nn) => "add     "@ + reg(x as nat) + ", "@ + hex(nn as nat, 2),
        Chip8Inst::Assign(x, y) => "mov     "@ + reg(x as nat) + ", "@ + reg(y as nat),
        Chip8Inst::BinOr(x, y) => "or      "@ + reg(x as nat) + ", "@ + reg(y as nat),
        Chip8Inst::BinAnd(x, y) => "and     "@ + reg(x as nat) + ", "@ + reg(y as nat),
        Chip8Inst::BinXor(x, y) => "xor     "@ + reg(x as nat) + ", "@ + reg(y as nat),
        Chip8Inst::ArithAdd(x, y) => "add     "@ + reg(x as nat) + ", "@ + reg(y as nat),
        Chip8Inst::ArithSub(x, y) => "sub     "@ + reg(x as nat) + ", "@ + reg(y as nat),
        Chip8Inst::ArithSubReverse(x, y) => "subr    "@ + reg(x as nat) + ", "@ + reg(y as nat),
        Chip8Inst::ShiftLeft(x, y) => "shl     "@ + reg(x as nat) + ", "@ + reg(y as nat),
        Chip8Inst::ShiftRight(x, y) => "shr     "@ + reg(x as nat) + ", "@ + reg(y as nat),
        Chip8Inst::ReadDelay(x) => "mov     "@ + reg(x as nat) + ", D"@,
        Chip8Inst::SetDelay(x) => "mov     D, "@ + reg(x as nat),
        Chip8Inst::SetSound(x) => "mov     S, "@ + reg(x as nat),
        Chip8Inst::SetIndex(a) => "mov     I, "@ + hex(a as nat, 3),
        Chip8Inst::AddIndex(x) => "add     I, "@ + reg(x as nat),
        Chip8Inst::Random(x, nn) => "rand    "@ + reg(x as nat) + ", "@ + hex(nn as nat, 2),
        Chip8Inst::SkipEqKey(x) => "skipeqk "@ + reg(x as nat),
        Chip8Inst::SkipNeqKey(x) => "skipnek "@ + reg(x as nat),
        Chip8Inst::GetKey(x) => "read    "@ + reg(x as nat),
        Chip8Inst::LoadFont(x) => "font    "@ + reg(x as nat),
        Chip8Inst::BCDConvert(x) => "bcd     "@ + reg(x as nat),
        Chip8Inst::StoreMem(x) => "str     "@ + reg(x as nat),
        Chip8Inst::LoadMem(x) => "load    "@ + reg(x as nat),
    }
}

/// A listing line: with an address, `0x` and at least four hex digits of it,
/// four spaces, then the instruction's text.
pub open spec fn disassemble_spec(pc: Option<usize>, inst: Chip8Inst) -> Seq<char> {
    match pc {
        Some(a) => "0x"@ + hex(a as nat, 4) + "    "@ + disasm_spec(inst),
        None => disasm_spec(inst),
    }
}

/// The text of one hex digit.
fn hex_digit(d: usize) -> (r: &'static str)
    requires
        d < 16,
    ensures
        r@ == seq![hex_char(d as nat)],
{
    proof {
        reveal_strlit("0");
        reveal_strlit("1");
        reveal_strlit("2");
        reveal_strlit("3");
        reveal_strlit("4");
        reveal_strlit("5");
        reveal_strlit("6");
        reveal_strlit("7");
        reveal_strlit("8");
        reveal_strlit("9");
        reveal_strlit("a");
        reveal_strlit("b");
        reveal_strlit("c");
        reveal_strlit("d");
        reveal_strlit("e");
        reveal_strlit("f");
    }
    let r = match d {
        0 => "0",
        1 => "1",
        2 => "2",
        3 => "3",
        4 => "4",
        5 => "5",
        6 => "6",
        7 => "7",
        8 => "8",
        9 => "9",
        10 => "a",
        11 => "b",
        12 => "c",
        13 => "d",
        14 => "e",
        _ => "f",
    };
    assert(r@ =~= seq![hex_char(d as nat)]);
    r
}

/// Append `v` in hex, zero-padded to at least `w` digits.
fn push_hex(out: &mut String, v: usize, w: usize)
    ensures
        final(out)@ == old(out)@ + hex(v as nat, w as nat),
    decreases v + w,
{
    if !(v < 16 && w <= 1) {
        push_hex(out, v / 16, if w > 0 { w - 1 } else { 0 });
    }
    out.append(hex_digit(v % 16));
    assert(final(out)@ =~= old(out)@ + hex(v as nat, w as nat));
}

/// `m` followed by `V` and register `x`.
fn with_reg(m: &str, x: usize) -> (r: String)
    ensures
        r@ == m@ + reg(x as nat),
{
    let mut s = String::from_str(m);
    s.append("V");
    push_hex(&mut s, x, 1);
    assert(s@ =~= m@ + reg(x as nat));
    s
}

/// `m`, register `x`, a comma, then `rest`.
fn reg_then(m: &str, x: usize, rest: String) -> (r: String)
    ensures
        r@ == m@ + reg(x as nat) + ", "@ + rest@,
{
    let mut s = with_reg(m, x);
    s.append(", ");
    s.append(rest.as_str());
    assert(s@ =~= m@ + reg(x as nat) + ", "@ + rest@);
    s
}

/// Register `y` alone.
fn reg_text(y: usize) -> (r: String)
    ensures
        r@ == reg(y as nat),
{
    let mut s = String::new();
    s.append("V");
    push_hex(&mut s, y, 1);
    assert(s@ =~= reg(y as nat));
    s
}

/// `v` in hex alone, at least `w` digits.
fn hex_text(v: usize, w: usize) -> (r: String)
    ensures
        r@ == hex(v as nat, w as nat),
{
    let mut s = String::new();
    push_hex(&mut s, v, w);
    assert(s@ =~= hex(v as nat, w as nat));
    s
}

/// `m` followed by `v` in hex, at least `w` digits.
fn with_hex(m: &str, v: usize, w: usize) -> (r: String)
    ensures
        r@ == m@ + hex(v as nat, w as nat),
{
    let mut s = String::from_str(m);
    push_hex(&mut s, v, w);
    s
}

/// The assembly text of an instruction.
fn disasm(inst: Chip8Inst) -> (r: String)
    ensures
        r@ == disasm_spec(inst),
{
    match inst {
        Chip8Inst::ClearScreen => String::from_str("clr"),
        Chip8Inst::SubReturn => String::from_str("retn"),
        Chip8Inst::Display(x, y, n) => {
            let mut s = reg_then("draw    ", x, reg_text(y));
            s.append(", ");
            push_hex(&mut s, n as usize, 1);
            assert(s@ =~= disasm_spec(inst));
            s
        },
        Chip8Inst::MachineInst(a) => with_hex("mc      ", a, 3),
        Chip8Inst::Jump(a) => with_hex("jmp     ", a, 3),
        Chip8Inst::JumpReg(a) => with_hex("jmpv    ", a, 3),
        Chip8Inst::SubCall(a) => with_hex("call    ", a, 3),
        Chip8Inst::SkipEqConst(x, nn) => reg_then("skipeq  ", x, hex_text(nn as usize, 2)),
        Chip8Inst::SkipNeqConst(x, nn) => reg_then("skipne  ", x, hex_text(nn as usize, 2)),
        Chip8Inst::SkipEqReg(x, y) => reg_then("skipeq  ", x, reg_text(y)),
        Chip8Inst::SkipNeqReg(x, y) => reg_then("skipne  ", x, reg_text(y)),
        Chip8Inst::RegSet(x, nn) => reg_then("mov     ", x, hex_text(nn as usize, 2)),
        Chip8Inst::RegAddNoCarry(x, nn) => reg_then("add     ", x, hex_text(nn as usize, 2)),
        Chip8Inst::Assign(x, y) => reg_then("mov     ", x, reg_text(y)),
        Chip8Inst::BinOr(x, y) => reg_then("or      ", x, reg_text(y)),
        Chip8Inst::BinAnd(x, y) => reg_then("and     ", x, reg_text(y)),
        Chip8Inst::BinXor(x, y) => reg_then("xor     ", x, reg_text(y)),
        Chip8Inst::ArithAdd(x, y) => reg_then("add     ", x, reg_text(y)),
        Chip8Inst::ArithSub(x, y) => reg_then("sub     ", x, reg_text(y)),
        Chip8Inst::ArithSubReverse(x, y) => reg_then("subr    ", x, reg_text(y)),
        Chip8Inst::ShiftLeft(x, y) => reg_then("shl     ", x, reg_text(y)),
        Chip8Inst::ShiftRight(x, y) => reg_then("shr     ", x, reg_text(y)),
        Chip8Inst::ReadDelay(x) => {
            let mut s = with_reg("mov     ", x);
            s.append(", D");
            s
        },
        Chip8Inst::SetDelay(x) => with_reg("mov     D, ", x),
        Chip8Inst::SetSound(x) => with_reg("mov     S, ", x),
        Chip8Inst::SetIndex(a) => with_hex("mov     I, ", a, 3),
        Chip8Inst::AddIndex(x) => with_reg("add     I, ", x),
        Chip8Inst::Random(x, nn) => reg_then("rand    ", x, hex_text(nn as usize, 2)),
        Chip8Inst::SkipEqKey(x) => with_reg("skipeqk ", x),
        Chip8Inst::SkipNeqKey(x) => with_reg("skipnek ", x),
        Chip8Inst::GetKey(x) => with_reg("read    ", x),
        Chip8Inst::LoadFont(x) => with_reg("font    ", x),
        Chip8Inst::BCDConvert(x) => with_reg("bcd     ", x),
        Chip8Inst::StoreMem(x) => with_reg("str     ", x),
        Chip8Inst::LoadMem(x) => with_reg("load    ", x),
    }
}

/// The listing line of an instruction, with its address when one is given.
pub fn disassemble(pc: Option<usize>, inst: Chip8Inst) -> (r: String)
    ensures
        r@ == disassemble_spec(pc, inst),
{
    let s = disasm(inst);
    match pc {
        Some(a) => {
            let mut line = String::from_str("0x");
            push_hex(&mut line, a, 4);
            line.append("    ");
            line.append(s.as_str());
            line
        },
        None => s,
    }
}


impl DecodeError {
    /// A report of the bad opcode: its address in eight hex digits and the
    /// opcode in four, each after `0x`.
    pub fn message(&self) -> (r: String)
        ensures
            r@ == "Invalid instruction at 0x"@ + hex(self.pc as nat, 8) + ": 0x"@ + hex(
                self.opcode as nat,
                4,
            ),
    {
        let mut m = String::from_str("Invalid instruction at 0x");
        push_hex(&mut m, self.pc as usize, 8);
        m.append(": 0x");
        push_hex(&mut m, self.opcode as usize, 4);
        m
    }
}

} // verus!
