//! The CHIP-8 execution engine: memory, registers, stack, timers, display and
//! keypad, and the fetch/decode/execute cycle over them.

use vstd::prelude::*;

use crate::carry_borrow::{AddCarry, ShiftOverflow, SubBorrow};
use crate::display::{
    drawn_pixels, in_sprite, sprite_bit_at, sprite_collides, Chip8Display, DISPLAY_SIZE,
};
use crate::hilo::HiLo;
use crate::insts::{decode_spec, valid_inst, Chip8Inst};
use crate::timers::{tick_value, Chip8Timers};

verus! {

/// Bytes of memory.
pub const MEMORY_SIZE: usize = 4096;

/// Address where the font table starts.
pub const FONT_BASE: usize = 0x050;

/// Address where programs are loaded and start running.
pub const PROGRAM_START: usize = 0x200;

/// The largest program that fits in memory.
pub const MAX_ROM_SIZE: usize = 3584;

/// The glyphs of the hex digits 0 to F, five rows of four pixels each.
pub open spec fn font_spec() -> Seq<u8> {
    seq![
        0xF0u8, 0x90, 0x90, 0x90, 0xF0,
        0x20, 0x60, 0x20, 0x20, 0x70,
        0xF0, 0x10, 0xF0, 0x80, 0xF0,
        0xF0, 0x10, 0xF0, 0x10, 0xF0,
        0x90, 0x90, 0xF0, 0x10, 0x10,
        0xF0, 0x80, 0xF0, 0x10, 0xF0,
        0xF0, 0x80, 0xF0, 0x90, 0xF0,
        0xF0, 0x10, 0x20, 0x40, 0x40,
        0xF0, 0x90, 0xF0, 0x90, 0xF0,
        0xF0, 0x90, 0xF0, 0x10, 0xF0,
        0xF0, 0x90, 0xF0, 0x90, 0x90,
        0xE0, 0x90, 0xE0, 0x90, 0xE0,
        0xF0, 0x80, 0x80, 0x80, 0xF0,
        0xE0, 0x90, 0x90, 0x90, 0xE0,
        0xF0, 0x80, 0xF0, 0x80, 0xF0,
        0xF0, 0x80, 0xF0, 0x80, 0x80,
    ]
}

/// The font table.
pub fn font() -> (r: Vec<u8>)
    ensures
        r@ == font_spec(),
{
    vec![
        0xF0u8, 0x90, 0x90, 0x90, 0xF0,
        0x20, 0x60, 0x20, 0x20, 0x70,
        0xF0, 0x10, 0xF0, 0x80, 0xF0,
        0xF0, 0x10, 0xF0, 0x10, 0xF0,
        0x90, 0x90, 0xF0, 0x10, 0x10,
        0xF0, 0x80, 0xF0, 0x10, 0xF0,
        0xF0, 0x80, 0xF0, 0x90, 0xF0,
        0xF0, 0x10, 0x20, 0x40, 0x40,
        0xF0, 0x90, 0xF0, 0x90, 0xF0,
        0xF0, 0x90, 0xF0, 0x10, 0xF0,
        0xF0, 0x90, 0xF0, 0x90, 0x90,
        0xE0, 0x90, 0xE0, 0x90, 0xE0,
        0xF0, 0x80, 0x80, 0x80, 0xF0,
        0xE0, 0x90, 0x90, 0x90, 0xE0,
        0xF0, 0x80, 0xF0, 0x80, 0xF0,
        0xF0, 0x80, 0xF0, 0x80, 0x80,
    ]
}

/// Memory as a new machine has it: the font table at `FONT_BASE`, zero elsewhere.
pub open spec fn initial_memory() -> Seq<u8> {
    Seq::new(
        MEMORY_SIZE as nat,
        |a: int| if FONT_BASE <= a < FONT_BASE + 80 { font_spec()[a - FONT_BASE] } else { 0u8 },
    )
}

/// `mem` with the first `k` bytes of `rom` written from the program start on.
pub open spec fn rom_loaded(mem: Seq<u8>, rom: Seq<u8>, k: int) -> Seq<u8> {
    Seq::new(
        mem.len(),
        |a: int| if PROGRAM_START <= a < PROGRAM_START + k { rom[a - PROGRAM_START] } else { mem[a] },
    )
}

/// Which family of behaviours the ambiguous instructions follow.
#[derive(Debug, Clone, Copy, PartialEq, Eq, Structural)]
pub enum Chip8Mode {
    /// COSMAC VIP: shifts read VY, and memory transfers advance I.
    Original,
    /// Shifts work on VX in place, and memory transfers leave I alone.
    Modern,
}

/// An opcode that names no instruction, and the address it was fetched from.
#[derive(Debug, Clone, Copy, PartialEq, Eq, Structural)]
pub struct DecodeError {
    pub opcode: u16,
    pub pc: u16,
}

/// Why the machine stopped.
#[derive(Debug, Clone, Copy, PartialEq, Eq, Structural)]
pub enum Chip8Error {
    /// The opcode at the program counter is not an instruction.
    BadInstruction(DecodeError),
    /// A return with no subroutine to return from.
    StackUnderflow,
    /// An access at or past the end of memory, from this address.
    BadAddress(u16),
    /// A program of this many bytes does not fit in memory.
    RomTooLarge(usize),
}

/// What the caller of a cycle should do next.
#[derive(Debug, Clone, Copy, PartialEq, Eq, Structural)]
pub enum StepEvent {
    /// Run the next cycle.
    Continue,
    /// Wait until a key is released, and hand it to `release_key`.
    WaitingForKey,
}

/// The machine as a mathematical value.
pub struct MachineState {
    pub mode: Chip8Mode,
    pub memory: Seq<u8>,
    pub stack: Seq<u16>,
    pub pc: u16,
    pub registers: Seq<u8>,
    pub index: u16,
    pub delay: u8,
    pub sound: u8,
    pub pixels: Seq<bool>,
    pub redraw: bool,
    pub keys: Seq<bool>,
    /// The register that a pending key wait will write.
    pub waiting: Option<usize>,
}

/// `pc` advanced past one instruction, within 16 bits.
pub open spec fn next_pc(pc: u16) -> u16 {
    ((pc as int + 2) % 0x10000) as u16
}

/// 1 for a set flag, 0 for a clear one.
pub open spec fn flag(b: bool) -> u8 {
    if b {
        1
    } else {
        0
    }
}

/// `s` with register `x` set to `v`.
pub open spec fn set_reg(s: MachineState, x: int, v: u8) -> MachineState {
    MachineState { registers: s.registers.update(x, v), ..s }
}

/// `s` with register `x` set to `v`, then VF set to `f`.
pub open spec fn set_reg_flag(s: MachineState, x: int, v: u8, f: bool) -> MachineState {
    set_reg(set_reg(s, x, v), 15, flag(f))
}

/// `s` with the next instruction skipped when `c` holds.
pub open spec fn skip_if(s: MachineState, c: bool) -> MachineState {
    if c {
        MachineState { pc: next_pc(s.pc), ..s }
    } else {
        s
    }
}

/// The value that a shift works on.
pub open spec fn shift_source(s: MachineState, x: int, y: int) -> u8 {
    if s.mode == Chip8Mode::Original {
        s.registers[y]
    } else {
        s.registers[x]
    }
}

/// Memory after registers `V0..=Vx` are written from address `i` on.
pub open spec fn stored_memory(mem: Seq<u8>, regs: Seq<u8>, i: int, x: int) -> Seq<u8> {
    Seq::new(mem.len(), |a: int| if i <= a <= i + x { regs[a - i] } else { mem[a] })
}

/// Registers after `V0..=Vx` are read from address `i` on.
pub open spec fn loaded_registers(mem: Seq<u8>, regs: Seq<u8>, i: int, x: int) -> Seq<u8> {
    Seq::new(regs.len(), |r: int| if r <= x { mem[i + r] } else { regs[r] })
}

/// The number of sprite rows that fall on the display when drawing from row `y0`.
pub open spec fn visible_rows(n: u8, y0: int) -> int {
    if n as int <= 32 - y0 {
        n as int
    } else {
        32 - y0
    }
}

/// The effect of one instruction on a machine whose program counter has
/// already moved past it; `rnd` is the random byte that `Random` uses.
pub open spec fn execute_spec(s: MachineState, inst: Chip8Inst, rnd: u8) -> Result<
    MachineState,
    Chip8Error,
> {
    let r = s.registers;
    match inst {
        Chip8Inst::MachineInst(_) => Ok(s),
        Chip8Inst::ClearScreen => Ok(
            MachineState {
                pixels: Seq::new(DISPLAY_SIZE as nat, |p: int| false),
                redraw: true,
                ..s
            },
        ),
        Chip8Inst::Display(xr, yr, n) => {
            let x0 = r[xr as int] % 64;
            let y0 = r[yr as int] % 32;
            let h = visible_rows(n, y0 as int);
            if s.index + h > MEMORY_SIZE {
                Err(Chip8Error::BadAddress(s.index))
            } else {
                let rows = s.memory.subrange(s.index as int, s.index + h);
                Ok(
                    set_reg(
                        MachineState {
                            pixels: drawn_pixels(s.pixels, x0 as int, y0 as int, rows),
                            redraw: true,
                            ..s
                        },
                        15,
                        flag(sprite_collides(s.pixels, x0 as int, y0 as int, rows)),
                    ),
                )
            }
        },
        Chip8Inst::Jump(a) => Ok(MachineState { pc: a as u16, ..s }),
        Chip8Inst::JumpReg(a) => Ok(MachineState { pc: (a + r[0]) as u16, ..s }),
        Chip8Inst::SubCall(a) => Ok(MachineState { stack: s.stack.push(s.pc), pc: a as u16, ..s }),
        Chip8Inst::SubReturn => if s.stack.len() == 0 {
            Err(Chip8Error::StackUnderflow)
        } else {
            Ok(MachineState { stack: s.stack.drop_last(), pc: s.stack.last(), ..s })
        },
        Chip8Inst::SkipEqConst(x, nn) => Ok(skip_if(s, r[x as int] == nn)),
        Chip8Inst::SkipNeqConst(x, nn) => Ok(skip_if(s, r[x as int] != nn)),
        Chip8Inst::SkipEqReg(x, y) => Ok(skip_if(s, r[x as int] == r[y as int])),
        Chip8Inst::SkipNeqReg(x, y) => Ok(skip_if(s, r[x as int] != r[y as int])),
        Chip8Inst::SkipEqKey(x) => Ok(skip_if(s, s.keys[(r[x as int] % 16) as int])),
        Chip8Inst::SkipNeqKey(x) => Ok(skip_if(s, !s.keys[(r[x as int] % 16) as int])),
        Chip8Inst::RegSet(x, nn) => Ok(set_reg(s, x as int, nn)),
        Chip8Inst::RegAddNoCarry(x, nn) => Ok(
            set_reg(s, x as int, ((r[x as int] + nn) % 256) as u8),
        ),
        Chip8Inst::Assign(x, y) => Ok(set_reg(s, x as int, r[y as int])),
        Chip8Inst::BinOr(x, y) => Ok(set_reg(s, x as int, r[x as int] | r[y as int])),
        Chip8Inst::BinAnd(x, y) => Ok(set_reg(s, x as int, r[x as int] & r[y as int])),
        Chip8Inst::BinXor(x, y) => Ok(set_reg(s, x as int, r[x as int] ^ r[y as int])),
        Chip8Inst::ArithAdd(x, y) => {
            let sum = r[x as int] + r[y as int];
            Ok(set_reg_flag(s, x as int, (sum % 256) as u8, sum > 255))
        },
        Chip8Inst::ArithSub(x, y) => Ok(
            set_reg_flag(
                s,
                x as int,
                ((r[x as int] - r[y as int]) % 256) as u8,
                r[x as int] >= r[y as int],
            ),
        ),
        Chip8Inst::ArithSubReverse(x, y) => Ok(
            set_reg_flag(
                s,
                x as int,
                ((r[y as int] - r[x as int]) % 256) as u8,
                r[y as int] >= r[x as int],
            ),
        ),
        Chip8Inst::ShiftLeft(x, y) => {
            let v = shift_source(s, x as int, y as int);
            Ok(set_reg_flag(s, x as int, ((v * 2) % 256) as u8, v >= 0x80))
        },
        Chip8Inst::ShiftRight(x, y) => {
            let v = shift_source(s, x as int, y as int);
            Ok(set_reg_flag(s, x as int, (v / 2) as u8, v % 2 == 1))
        },
        Chip8Inst::ReadDelay(x) => Ok(set_reg(s, x as int, s.delay)),
        Chip8Inst::SetDelay(x) => Ok(MachineState { delay: r[x as int], ..s }),
        Chip8Inst::SetSound(x) => Ok(MachineState { sound: r[x as int], ..s }),
        Chip8Inst::SetIndex(a) => Ok(MachineState { index: a as u16, ..s }),
        Chip8Inst::AddIndex(x) => {
            let sum = s.index + r[x as int];
            let t = MachineState { index: (sum % 0x10000) as u16, ..s };
            Ok(if sum >= 0x1000 { set_reg(t, 15, 1) } else { t })
        },
        Chip8Inst::Random(x, nn) => Ok(set_reg(s, x as int, rnd & nn)),
        Chip8Inst::GetKey(x) => Ok(MachineState { waiting: Some(x), ..s }),
        Chip8Inst::LoadFont(x) => Ok(
            MachineState { index: (FONT_BASE + 5 * (r[x as int] % 16)) as u16, ..s },
        ),
        Chip8Inst::BCDConvert(x) => {
            let v = r[x as int];
            let i = s.index as int;
            if i + 3 > MEMORY_SIZE {
                Err(Chip8Error::BadAddress(s.index))
            } else {
                Ok(
                    MachineState {
                        memory: s.memory.update(i, (v / 100) as u8).update(
                            i + 1,
                            ((v / 10) % 10) as u8,
                        ).update(i + 2, (v % 10) as u8),
                        ..s
                    },
                )
            }
        },
        Chip8Inst::StoreMem(x) => {
            let i = s.index as int;
            if i + x + 1 > MEMORY_SIZE {
                Err(Chip8Error::BadAddress(s.index))
            } else {
                let t = MachineState { memory: stored_memory(s.memory, r, i, x as int), ..s };
                Ok(
                    if s.mode == Chip8Mode::Original {
                        MachineState { index: (i + x + 1) as u16, ..t }
                    } else {
                        t
                    },
                )
            }
        },
        Chip8Inst::LoadMem(x) => {
            let i = s.index as int;
            if i + x + 1 > MEMORY_SIZE {
                Err(Chip8Error::BadAddress(s.index))
            } else {
                let t = MachineState {
                    registers: loaded_registers(s.memory, r, i, x as int),
                    ..s
                };
                Ok(
                    if s.mode == Chip8Mode::Original {
                        MachineState { index: (i + x + 1) as u16, ..t }
                    } else {
                        t
                    },
                )
            }
        },
    }
}

/// What the caller should do after an instruction ran.
pub open spec fn event_of(inst: Chip8Inst) -> StepEvent {
    match inst {
        Chip8Inst::GetKey(_) => StepEvent::WaitingForKey,
        _ => StepEvent::Continue,
    }
}

/// The opcode at `pc`, big-endian, or `None` when it runs past memory.
pub open spec fn opcode_at(s: MachineState, pc: u16) -> Option<u16> {
    if pc as int + 1 < MEMORY_SIZE {
        Some((s.memory[pc as int] * 256 + s.memory[pc + 1]) as u16)
    } else {
        None
    }
}

/// One cycle: while a key wait is pending nothing happens; otherwise the
/// opcode at the program counter is fetched and decoded, the program counter
/// moves past it, and the instruction runs.
pub open spec fn step_spec(s: MachineState, rnd: u8) -> Result<
    (MachineState, StepEvent),
    Chip8Error,
> {
    if s.waiting.is_some() {
        Ok((s, StepEvent::WaitingForKey))
    } else {
        match opcode_at(s, s.pc) {
            None => Err(Chip8Error::BadAddress(s.pc)),
            Some(code) => match decode_spec(code) {
                Err(_) => Err(Chip8Error::BadInstruction(DecodeError { opcode: code, pc: s.pc })),
                Ok(inst) => match execute_spec(MachineState { pc: next_pc(s.pc), ..s }, inst, rnd) {
                    Ok(t) => Ok((t, event_of(inst))),
                    Err(e) => Err(e),
                },
            },
        }
    }
}

/// Relies on rand::random: some byte, drawn from the thread's generator.
#[verifier::external_body]
fn random_byte() -> u8 {
    rand::random::<u8>()
}

/// A CHIP-8 machine.
pub struct Chip8Machine {
    mode: Chip8Mode,
    memory: Vec<u8>,
    stack: Vec<u16>,
    prog_counter: u16,
    registers: Vec<u8>,
    index_reg: u16,
    timers: Chip8Timers,
    display: Chip8Display,
    keys: Vec<bool>,
    waiting_key: Option<usize>,
}

impl View for Chip8Machine {
    type V = MachineState;

    closed spec fn view(&self) -> MachineState {
        MachineState {
            mode: self.mode,
            memory: self.memory@,
            stack: self.stack@,
            pc: self.prog_counter,
            registers: self.registers@,
            index: self.index_reg,
            delay: self.timers.delay(),
            sound: self.timers.sound(),
            pixels: self.display@,
            redraw: self.display.needs_redraw(),
            keys: self.keys@,
            waiting: self.waiting_key,
        }
    }
}

/// The sizes that every machine state has.
pub open spec fn state_wf(s: MachineState) -> bool {
    &&& s.memory.len() == MEMORY_SIZE
    &&& s.registers.len() == 16
    &&& s.pixels.len() == DISPLAY_SIZE
    &&& s.keys.len() == 16
    &&& s.waiting matches Some(x) ==> x < 16
}

impl Chip8Machine {
    /// The machine's fields agree in size with its view.
    pub closed spec fn wf(&self) -> bool {
        &&& state_wf(self@)
        &&& self.display.wf()
    }

    /// A machine in the given mode with the font loaded, everything else zero,
    /// and the program counter at the program's start.
    pub fn new(mode: Chip8Mode) -> (r: Chip8Machine)
        ensures
            r.wf(),
            r@.mode == mode,
            r@.memory == initial_memory(),
            r@.memory.subrange(FONT_BASE as int, FONT_BASE + 80) == font_spec(),
            r@.stack == Seq::<u16>::empty(),
            r@.pc == PROGRAM_START,
            r@.registers == Seq::new(16, |i: int| 0u8),
            r@.index == 0,
            r@.delay == 0,
            r@.sound == 0,
            r@.pixels == Seq::new(DISPLAY_SIZE as nat, |p: int| false),
            !r@.redraw,
            r@.keys == Seq::new(16, |i: int| false),
            r@.waiting.is_none(),
    {
        let f = font();
        let mut memory: Vec<u8> = Vec::new();
        let mut a: usize = 0;
        while a < MEMORY_SIZE
            invariant
                a <= MEMORY_SIZE,
                f@ == font_spec(),
                memory@.len() == a,
                forall|b: int| 0 <= b < a ==> #[trigger] memory@[b] == initial_memory()[b],
            decreases MEMORY_SIZE - a,
        {
            if FONT_BASE <= a && a < FONT_BASE + 80 {
                memory.push(f[a - FONT_BASE]);
            } else {
                memory.push(0);
            }
            a += 1;
        }
        let registers = vec![0u8; 16];
        let keys = vec![false; 16];
        let m = Chip8Machine {
            mode,
            memory,
            stack: Vec::new(),
            prog_counter: PROGRAM_START as u16,
            registers,
            index_reg: 0,
            timers: Chip8Timers::init(),
            display: Chip8Display::init(),
            keys,
            waiting_key: None,
        };
        assert(m@.memory =~= initial_memory());
        assert(m@.memory.subrange(FONT_BASE as int, FONT_BASE + 80) =~= font_spec());
        assert(m@.registers =~= Seq::new(16, |i: int| 0u8));
        assert(m@.keys =~= Seq::new(16, |i: int| false));
        m
    }
}



/// `post` and the result `r` are what running `inst` on `pre` gives: the
/// state and event of `execute_spec`, or its error with the state unchanged.
pub open spec fn executes(
    pre: MachineState,
    post: MachineState,
    inst: Chip8Inst,
    rnd: u8,
    r: Result<StepEvent, Chip8Error>,
) -> bool {
    match execute_spec(pre, inst, rnd) {
        Ok(t) => r == Ok::<StepEvent, Chip8Error>(event_of(inst)) && post == t,
        Err(e) => r == Err::<StepEvent, Chip8Error>(e) && post == pre,
    }
}

/// Instructions that compute a register from registers and immediates.
pub open spec fn is_alu(inst: Chip8Inst) -> bool {
    match inst {
        Chip8Inst::RegSet(_, _)
        | Chip8Inst::RegAddNoCarry(_, _)
        | Chip8Inst::Assign(_, _)
        | Chip8Inst::BinOr(_, _)
        | Chip8Inst::BinAnd(_, _)
        | Chip8Inst::BinXor(_, _)
        | Chip8Inst::ArithAdd(_, _)
        | Chip8Inst::ArithSub(_, _)
        | Chip8Inst::ArithSubReverse(_, _)
        | Chip8Inst::ShiftLeft(_, _)
        | Chip8Inst::ShiftRight(_, _)
        | Chip8Inst::Random(_, _) => true,
        _ => false,
    }
}

/// Instructions that move the program counter or wait for a key.
pub open spec fn is_flow(inst: Chip8Inst) -> bool {
    match inst {
        Chip8Inst::MachineInst(_)
        | Chip8Inst::Jump(_)
        | Chip8Inst::JumpReg(_)
        | Chip8Inst::SubCall(_)
        | Chip8Inst::SubReturn
        | Chip8Inst::SkipEqConst(_, _)
        | Chip8Inst::SkipNeqConst(_, _)
        | Chip8Inst::SkipEqReg(_, _)
        | Chip8Inst::SkipNeqReg(_, _)
        | Chip8Inst::SkipEqKey(_)
        | Chip8Inst::SkipNeqKey(_)
        | Chip8Inst::GetKey(_) => true,
        _ => false,
    }
}

impl Chip8Machine {
    /// Set register `x` to `v`.
    fn put_reg(&mut self, x: usize, v: u8)
        requires
            old(self).wf(),
            x < 16,
        ensures
            final(self).wf(),
            final(self)@ == set_reg(old(self)@, x as int, v),
    {
        self.registers.set(x, v);
    }

    /// Set register `x` to `v`, then VF to the flag `f`.
    fn put_reg_flag(&mut self, x: usize, v: u8, f: bool)
        requires
            old(self).wf(),
            x < 16,
        ensures
            final(self).wf(),
            final(self)@ == set_reg_flag(old(self)@, x as int, v, f),
    {
        self.registers.set(x, v);
        self.registers.set(15, if f { 1 } else { 0 });
    }

    /// Skip the next instruction when `c` holds.
    fn skip_if(&mut self, c: bool)
        requires
            old(self).wf(),
        ensures
            final(self).wf(),
            final(self)@ == skip_if(old(self)@, c),
    {
        if c {
            self.prog_counter = ((self.prog_counter as u32 + 2) % 0x10000) as u16;
        }
    }

    /// Draw `n` rows of the sprite at I with its corner at (V[xr], V[yr]).
    fn draw(&mut self, xr: usize, yr: usize, n: u8) -> (r: Result<StepEvent, Chip8Error>)
        requires
            old(self).wf(),
            xr < 16,
            yr < 16,
            n < 16,
        ensures
            final(self).wf(),
            executes(old(self)@, final(self)@, Chip8Inst::Display(xr, yr, n), 0, r),
    {
        let x0 = (self.registers[xr] % 64) as usize;
        let y0 = (self.registers[yr] % 32) as usize;
        let h: usize = if n as usize <= 32 - y0 { n as usize } else { 32 - y0 };
        let i = self.index_reg as usize;
        if i + h > MEMORY_SIZE {
            return Err(Chip8Error::BadAddress(self.index_reg));
        }
        let mut rows: Vec<u8> = Vec::new();
        let mut k: usize = 0;
        while k < h
            invariant
                self.wf(),
                k <= h,
                i + h <= MEMORY_SIZE,
                rows@ == self@.memory.subrange(i as int, i + k),
            decreases h - k,
        {
            rows.push(self.memory[i + k]);
            k += 1;
        }
        let c = self.display.draw_sprite(x0, y0, &rows);
        self.registers.set(15, if c { 1 } else { 0 });
        Ok(StepEvent::Continue)
    }

    /// Copy `V0..=Vx` to memory from I on, advancing I in original mode.
    fn store_mem(&mut self, x: usize) -> (r: Result<StepEvent, Chip8Error>)
        requires
            old(self).wf(),
            x < 16,
        ensures
            final(self).wf(),
            executes(old(self)@, final(self)@, Chip8Inst::StoreMem(x), 0, r),
    {
        let i = self.index_reg as usize;
        if i + x + 1 > MEMORY_SIZE {
            return Err(Chip8Error::BadAddress(self.index_reg));
        }
        let ghost m0 = self.memory@;
        let mut k: usize = 0;
        while k <= x
            invariant
                self.wf(),
                x < 16,
                k <= x + 1,
                i + x + 1 <= MEMORY_SIZE,
                i == self.index_reg,
                self@.registers == old(self)@.registers,
                self@ == (MachineState { memory: self@.memory, ..old(self)@ }),
                self.memory@ == Seq::new(
                    m0.len(),
                    |a: int| if i <= a < i + k { old(self)@.registers[a - i] } else { m0[a] },
                ),
            decreases x + 1 - k,
        {
            let v = self.registers[k];
            self.memory.set(i + k, v);
            k += 1;
            assert(self.memory@ =~= Seq::new(
                m0.len(),
                |a: int| if i <= a < i + k { old(self)@.registers[a - i] } else { m0[a] },
            ));
        }
        assert(self.memory@ =~= stored_memory(m0, old(self)@.registers, i as int, x as int));
        if self.mode == Chip8Mode::Original {
            self.index_reg = (i + x + 1) as u16;
        }
        Ok(StepEvent::Continue)
    }

    /// Copy memory from I on into `V0..=Vx`, advancing I in original mode.
    fn load_mem(&mut self, x: usize) -> (r: Result<StepEvent, Chip8Error>)
        requires
            old(self).wf(),
            x < 16,
        ensures
            final(self).wf(),
            executes(old(self)@, final(self)@, Chip8Inst::LoadMem(x), 0, r),
    {
        let i = self.index_reg as usize;
        if i + x + 1 > MEMORY_SIZE {
            return Err(Chip8Error::BadAddress(self.index_reg));
        }
        let ghost r0 = self.registers@;
        let mut k: usize = 0;
        while k <= x
            invariant
                self.wf(),
                x < 16,
                k <= x + 1,
                i + x + 1 <= MEMORY_SIZE,
                i == self.index_reg,
                self@ == (MachineState { registers: self@.registers, ..old(self)@ }),
                self.registers@ == Seq::new(
                    r0.len(),
                    |q: int| if q < k { old(self)@.memory[i + q] } else { r0[q] },
                ),
            decreases x + 1 - k,
        {
            let v = self.memory[i + k];
            self.registers.set(k, v);
            k += 1;
            assert(self.registers@ =~= Seq::new(
                r0.len(),
                |q: int| if q < k { old(self)@.memory[i + q] } else { r0[q] },
            ));
        }
        assert(self.registers@ =~= loaded_registers(old(self)@.memory, r0, i as int, x as int));
        if self.mode == Chip8Mode::Original {
            self.index_reg = (i + x + 1) as u16;
        }
        Ok(StepEvent::Continue)
    }

    /// Run an instruction that computes a register.
    #[verifier::rlimit(40)]
    fn execute_alu(&mut self, inst: Chip8Inst, rnd: u8) -> (r: Result<StepEvent, Chip8Error>)
        requires
            old(self).wf(),
            valid_inst(inst),
            is_alu(inst),
        ensures
            final(self).wf(),
            executes(old(self)@, final(self)@, inst, rnd, r),
    {
        match inst {
            Chip8Inst::RegSet(x, nn) => {
                self.put_reg(x, nn);
            },
            Chip8Inst::RegAddNoCarry(x, nn) => {
                let v = u8::add_no_carry(self.registers[x], nn);
                self.put_reg(x, v);
            },
            Chip8Inst::Assign(x, y) => {
                let v = self.registers[y];
                self.put_reg(x, v);
            },
            Chip8Inst::BinOr(x, y) => {
                let v = self.registers[x] | self.registers[y];
                self.put_reg(x, v);
            },
            Chip8Inst::BinAnd(x, y) => {
                let v = self.registers[x] & self.registers[y];
                self.put_reg(x, v);
            },
            Chip8Inst::BinXor(x, y) => {
                let v = self.registers[x] ^ self.registers[y];
                self.put_reg(x, v);
            },
            Chip8Inst::ArithAdd(x, y) => {
                let (sum, carry) = u8::add_carry(self.registers[x], self.registers[y]);
                self.put_reg_flag(x, sum, carry);
            },
            Chip8Inst::ArithSub(x, y) => {
                let vx = self.registers[x];
                let vy = self.registers[y];
                let (_, no_borrow) = u8::sub_borrow(vx, vy);
                let d: u8 = if no_borrow { vx - vy } else { (256 + vx as u16 - vy as u16) as u8 };
                self.put_reg_flag(x, d, no_borrow);
            },
            Chip8Inst::ArithSubReverse(x, y) => {
                let vx = self.registers[x];
                let vy = self.registers[y];
                let (_, no_borrow) = u8::sub_borrow(vy, vx);
                let d: u8 = if no_borrow { vy - vx } else { (256 + vy as u16 - vx as u16) as u8 };
                self.put_reg_flag(x, d, no_borrow);
            },
            Chip8Inst::ShiftLeft(x, y) => {
                let v = if self.mode == Chip8Mode::Original {
                    self.registers[y]
                } else {
                    self.registers[x]
                };
                let (n1, overflow) = u8::shift_left(v, 1);
                assert(v << 1u8 == ((v as u16 * 2) % 256) as u8) by (bit_vector);
                self.put_reg_flag(x, n1, overflow);
            },
            Chip8Inst::ShiftRight(x, y) => {
                let v = if self.mode == Chip8Mode::Original {
                    self.registers[y]
                } else {
                    self.registers[x]
                };
                let (n1, underflow) = u8::shift_right(v, 1);
                assert(v >> 1u8 == v / 2) by (bit_vector);
                self.put_reg_flag(x, n1, underflow);
            },
            Chip8Inst::Random(x, nn) => {
                self.put_reg(x, rnd & nn);
            },
            _ => {},
        }
        Ok(StepEvent::Continue)
    }

    /// Run an instruction that moves the program counter or waits for a key.
    fn execute_flow(&mut self, inst: Chip8Inst, rnd: u8) -> (r: Result<StepEvent, Chip8Error>)
        requires
            old(self).wf(),
            valid_inst(inst),
            is_flow(inst),
        ensures
            final(self).wf(),
            executes(old(self)@, final(self)@, inst, rnd, r),
    {
        match inst {
            Chip8Inst::MachineInst(_) => {},
            Chip8Inst::Jump(a) => {
                self.prog_counter = a as u16;
            },
            Chip8Inst::JumpReg(a) => {
                self.prog_counter = (a + self.registers[0] as usize) as u16;
            },
            Chip8Inst::SubCall(a) => {
                self.stack.push(self.prog_counter);
                self.prog_counter = a as u16;
            },
            Chip8Inst::SubReturn => {
                match self.stack.pop() {
                    Some(a) => {
                        self.prog_counter = a;
                    },
                    None => {
                        return Err(Chip8Error::StackUnderflow);
                    },
                }
            },
            Chip8Inst::SkipEqConst(x, nn) => {
                let c = self.registers[x] == nn;
                self.skip_if(c);
            },
            Chip8Inst::SkipNeqConst(x, nn) => {
                let c = self.registers[x] != nn;
                self.skip_if(c);
            },
            Chip8Inst::SkipEqReg(x, y) => {
                let c = self.registers[x] == self.registers[y];
                self.skip_if(c);
            },
            Chip8Inst::SkipNeqReg(x, y) => {
                let c = self.registers[x] != self.registers[y];
                self.skip_if(c);
            },
            Chip8Inst::SkipEqKey(x) => {
                let c = self.keys[(self.registers[x] % 16) as usize];
                self.skip_if(c);
            },
            Chip8Inst::SkipNeqKey(x) => {
                let c = !self.keys[(self.registers[x] % 16) as usize];
                self.skip_if(c);
            },
            Chip8Inst::GetKey(x) => {
                self.waiting_key = Some(x);
                return Ok(StepEvent::WaitingForKey);
            },
            _ => {},
        }
        Ok(StepEvent::Continue)
    }

    /// Run an instruction on the display, timers, index register or memory.
    fn execute_other(&mut self, inst: Chip8Inst, rnd: u8) -> (r: Result<StepEvent, Chip8Error>)
        requires
            old(self).wf(),
            valid_inst(inst),
            !is_alu(inst),
            !is_flow(inst),
            !(inst is Display),
            !(inst is StoreMem),
            !(inst is LoadMem),
        ensures
            final(self).wf(),
            executes(old(self)@, final(self)@, inst, rnd, r),
    {
        match inst {
            Chip8Inst::ClearScreen => {
                self.display.clear();
                self.display.redraw();
            },
            Chip8Inst::ReadDelay(x) => {
                let v = self.timers.read_delay();
                self.put_reg(x, v);
            },
            Chip8Inst::SetDelay(x) => {
                let v = self.registers[x];
                self.timers.set_delay(v);
            },
            Chip8Inst::SetSound(x) => {
                let v = self.registers[x];
                self.timers.set_sound(v);
            },
            Chip8Inst::SetIndex(a) => {
                self.index_reg = a as u16;
            },
            Chip8Inst::AddIndex(x) => {
                let sum: u32 = self.index_reg as u32 + self.registers[x] as u32;
                self.index_reg = (sum % 0x10000) as u16;
                if sum >= 0x1000 {
                    self.put_reg(15, 1);
                }
            },
            Chip8Inst::LoadFont(x) => {
                let d = self.registers[x] % 16;
                self.index_reg = (FONT_BASE + 5 * d as usize) as u16;
            },
            Chip8Inst::BCDConvert(x) => {
                let v = self.registers[x];
                let i = self.index_reg as usize;
                if i + 3 > MEMORY_SIZE {
                    return Err(Chip8Error::BadAddress(self.index_reg));
                }
                self.memory.set(i, v / 100);
                self.memory.set(i + 1, (v / 10) % 10);
                self.memory.set(i + 2, v % 10);
            },
            _ => {},
        }
        Ok(StepEvent::Continue)
    }

    /// Run one instruction, with `rnd` as the random byte that `Random` uses.
    /// On an error the machine is left as it was.
    pub fn execute_with(&mut self, inst: Chip8Inst, rnd: u8) -> (r: Result<StepEvent, Chip8Error>)
        requires
            old(self).wf(),
            valid_inst(inst),
        ensures
            final(self).wf(),
            executes(old(self)@, final(self)@, inst, rnd, r),
    {
        match inst {
            Chip8Inst::Display(xr, yr, n) => self.draw(xr, yr, n),
            Chip8Inst::StoreMem(x) => self.store_mem(x),
            Chip8Inst::LoadMem(x) => self.load_mem(x),
            _ => {
                if is_alu_inst(&inst) {
                    self.execute_alu(inst, rnd)
                } else if is_flow_inst(&inst) {
                    self.execute_flow(inst, rnd)
                } else {
                    self.execute_other(inst, rnd)
                }
            },
        }
    }
}

fn is_alu_inst(inst: &Chip8Inst) -> (r: bool)
    ensures
        r == is_alu(*inst),
{
    match inst {
        Chip8Inst::RegSet(_, _)
        | Chip8Inst::RegAddNoCarry(_, _)
        | Chip8Inst::Assign(_, _)
        | Chip8Inst::BinOr(_, _)
        | Chip8Inst::BinAnd(_, _)
        | Chip8Inst::BinXor(_, _)
        | Chip8Inst::ArithAdd(_, _)
        | Chip8Inst::ArithSub(_, _)
        | Chip8Inst::ArithSubReverse(_, _)
        | Chip8Inst::ShiftLeft(_, _)
        | Chip8Inst::ShiftRight(_, _)
        | Chip8Inst::Random(_, _) => true,
        _ => false,
    }
}

fn is_flow_inst(inst: &Chip8Inst) -> (r: bool)
    ensures
        r == is_flow(*inst),
{
    match inst {
        Chip8Inst::MachineInst(_)
        | Chip8Inst::Jump(_)
        | Chip8Inst::JumpReg(_)
        | Chip8Inst::SubCall(_)
        | Chip8Inst::SubReturn
        | Chip8Inst::SkipEqConst(_, _)
        | Chip8Inst::SkipNeqConst(_, _)
        | Chip8Inst::SkipEqReg(_, _)
        | Chip8Inst::SkipNeqReg(_, _)
        | Chip8Inst::SkipEqKey(_)
        | Chip8Inst::SkipNeqKey(_)
        | Chip8Inst::GetKey(_) => true,
        _ => false,
    }
}


/// Every decoded instruction has operands that fit their fields.
pub proof fn lemma_decode_valid(code: u16)
    ensures
        decode_spec(code) matches Ok(inst) ==> valid_inst(inst),
{
}

impl Chip8Machine {
    /// The instruction that an opcode names, or `Err` when it names none.
    pub fn decode(code: u16) -> (r: Result<Chip8Inst, ()>)
        ensures
            r == decode_spec(code),
    {
        let (a, x) = code.hi().split();
        let (y, n) = code.lo().split();
        let nn: u8 = code.lo();
        let x = x as usize;
        let y = y as usize;
        let nnn: usize = x * 0x100 + nn as usize;
        assert(a == code / 0x1000 && x == (code / 0x100) % 16 && y == (code / 0x10) % 16
            && n == code % 16 && nn == code % 0x100 && nnn == code % 0x1000) by (nonlinear_arith)
            requires
                a == (code / 256) / 16,
                x == (code / 256) % 16,
                y == (code % 256) / 16,
                n == (code % 256) % 16,
                nn == code % 256,
                nnn == x * 0x100 + nn,
        ;
        match a {
            0x0 => {
                if nnn == 0x0e0 {
                    Ok(Chip8Inst::ClearScreen)
                } else if nnn == 0x0ee {
                    Ok(Chip8Inst::SubReturn)
                } else {
                    Ok(Chip8Inst::MachineInst(nnn))
                }
            },
            0x1 => Ok(Chip8Inst::Jump(nnn)),
            0x2 => Ok(Chip8Inst::SubCall(nnn)),
            0x3 => Ok(Chip8Inst::SkipEqConst(x, nn)),
            0x4 => Ok(Chip8Inst::SkipNeqConst(x, nn)),
            0x5 => if n == 0 {
                Ok(Chip8Inst::SkipEqReg(x, y))
            } else {
                Err(())
            },
            0x6 => Ok(Chip8Inst::RegSet(x, nn)),
            0x7 => Ok(Chip8Inst::RegAddNoCarry(x, nn)),
            0x8 => match n {
                0x0 => Ok(Chip8Inst::Assign(x, y)),
                0x1 => Ok(Chip8Inst::BinOr(x, y)),
                0x2 => Ok(Chip8Inst::BinAnd(x, y)),
                0x3 => Ok(Chip8Inst::BinXor(x, y)),
                0x4 => Ok(Chip8Inst::ArithAdd(x, y)),
                0x5 => Ok(Chip8Inst::ArithSub(x, y)),
                0x6 => Ok(Chip8Inst::ShiftRight(x, y)),
                0x7 => Ok(Chip8Inst::ArithSubReverse(x, y)),
                0xe => Ok(Chip8Inst::ShiftLeft(x, y)),
                _ => Err(()),
            },
            0x9 => if n == 0 {
                Ok(Chip8Inst::SkipNeqReg(x, y))
            } else {
                Err(())
            },
            0xa => Ok(Chip8Inst::SetIndex(nnn)),
            0xb => Ok(Chip8Inst::JumpReg(nnn)),
            0xc => Ok(Chip8Inst::Random(x, nn)),
            0xd => Ok(Chip8Inst::Display(x, y, n)),
            0xe => match nn {
                0x9e => Ok(Chip8Inst::SkipEqKey(x)),
                0xa1 => Ok(Chip8Inst::SkipNeqKey(x)),
                _ => Err(()),
            },
            _ => match nn {
                0x07 => Ok(Chip8Inst::ReadDelay(x)),
                0x0a => Ok(Chip8Inst::GetKey(x)),
                0x15 => Ok(Chip8Inst::SetDelay(x)),
                0x18 => Ok(Chip8Inst::SetSound(x)),
                0x1e => Ok(Chip8Inst::AddIndex(x)),
                0x29 => Ok(Chip8Inst::LoadFont(x)),
                0x33 => Ok(Chip8Inst::BCDConvert(x)),
                0x55 => Ok(Chip8Inst::StoreMem(x)),
                0x65 => Ok(Chip8Inst::LoadMem(x)),
                _ => Err(()),
            },
        }
    }

    /// Decode `code` as fetched at the current program counter; an error
    /// carries the opcode and that address.
    pub fn decode_run(&self, code: u16) -> (r: Result<Chip8Inst, DecodeError>)
        ensures
            match decode_spec(code) {
                Ok(inst) => r == Ok::<Chip8Inst, DecodeError>(inst),
                Err(_) => r == Err::<Chip8Inst, DecodeError>(
                    DecodeError { opcode: code, pc: self@.pc },
                ),
            },
    {
        match Chip8Machine::decode(code) {
            Ok(inst) => Ok(inst),
            Err(_) => Err(DecodeError { opcode: code, pc: self.prog_counter }),
        }
    }

    /// The opcode at the program counter.
    fn fetch(&self) -> (r: Result<u16, Chip8Error>)
        requires
            self.wf(),
        ensures
            match opcode_at(self@, self@.pc) {
                Some(c) => r == Ok::<u16, Chip8Error>(c),
                None => r == Err::<u16, Chip8Error>(Chip8Error::BadAddress(self@.pc)),
            },
    {
        let pc = self.prog_counter as usize;
        if pc + 1 >= MEMORY_SIZE {
            return Err(Chip8Error::BadAddress(self.prog_counter));
        }
        let hi = self.memory[pc] as u16;
        let lo = self.memory[pc + 1] as u16;
        Ok(hi * 256 + lo)
    }

    /// One fetch/decode/execute cycle, with `rnd` as the random byte that
    /// `Random` uses. On an error the machine is left as it was.
    pub fn step_with(&mut self, rnd: u8) -> (r: Result<StepEvent, Chip8Error>)
        requires
            old(self).wf(),
        ensures
            final(self).wf(),
            match step_spec(old(self)@, rnd) {
                Ok((t, ev)) => r == Ok::<StepEvent, Chip8Error>(ev) && final(self)@ == t,
                Err(e) => r == Err::<StepEvent, Chip8Error>(e) && final(self)@ == old(self)@,
            },
    {
        if self.waiting_key.is_some() {
            return Ok(StepEvent::WaitingForKey);
        }
        let code = match self.fetch() {
            Ok(c) => c,
            Err(e) => {
                return Err(e);
            },
        };
        let inst = match self.decode_run(code) {
            Ok(inst) => inst,
            Err(e) => {
                return Err(Chip8Error::BadInstruction(e));
            },
        };
        proof {
            lemma_decode_valid(code);
        }
        let ghost s0 = self@;
        let pc = self.prog_counter;
        self.prog_counter = ((pc as u32 + 2) % 0x10000) as u16;
        let r = self.execute_with(inst, rnd);
        if r.is_err() {
            self.prog_counter = pc;
            assert(self@ == s0);
        }
        r
    }

    /// One fetch/decode/execute cycle, drawing a random byte for `Random`.
    pub fn step(&mut self) -> (r: Result<StepEvent, Chip8Error>)
        requires
            old(self).wf(),
        ensures
            final(self).wf(),
            exists|rnd: u8|
                match #[trigger] step_spec(old(self)@, rnd) {
                    Ok((t, ev)) => r == Ok::<StepEvent, Chip8Error>(ev) && final(self)@ == t,
                    Err(e) => r == Err::<StepEvent, Chip8Error>(e) && final(self)@ == old(self)@,
                },
    {
        let rnd = random_byte();
        self.step_with(rnd)
    }

    /// Run one instruction, drawing a random byte for `Random`.
    pub fn execute(&mut self, inst: Chip8Inst) -> (r: Result<StepEvent, Chip8Error>)
        requires
            old(self).wf(),
            valid_inst(inst),
        ensures
            final(self).wf(),
            exists|rnd: u8| #[trigger] executes(old(self)@, final(self)@, inst, rnd, r),
    {
        let rnd = random_byte();
        self.execute_with(inst, rnd)
    }
}


impl Chip8Machine {
    /// Copy a program into memory from the program start on. A program
    /// longer than `MAX_ROM_SIZE` bytes is refused and nothing is written.
    pub fn load_rom(&mut self, rom: &[u8]) -> (r: Result<(), Chip8Error>)
        requires
            old(self).wf(),
        ensures
            final(self).wf(),
            rom@.len() > MAX_ROM_SIZE ==> r == Err::<(), Chip8Error>(
                Chip8Error::RomTooLarge(rom@.len() as usize),
            ) && final(self)@ == old(self)@,
            rom@.len() <= MAX_ROM_SIZE ==> r is Ok && final(self)@ == (MachineState {
                memory: rom_loaded(old(self)@.memory, rom@, rom@.len() as int),
                ..old(self)@
            }),
    {
        let n = rom.len();
        if n > MAX_ROM_SIZE {
            return Err(Chip8Error::RomTooLarge(n));
        }
        let ghost m0 = self.memory@;
        let mut k: usize = 0;
        assert(self.memory@ =~= rom_loaded(m0, rom@, 0));
        while k < n
            invariant
                self.wf(),
                n == rom@.len(),
                n <= MAX_ROM_SIZE,
                k <= n,
                self@ == (MachineState { memory: self@.memory, ..old(self)@ }),
                m0.len() == MEMORY_SIZE,
                self.memory@ == rom_loaded(m0, rom@, k as int),
            decreases n - k,
        {
            self.memory.set(PROGRAM_START + k, rom[k]);
            k += 1;
            assert(self.memory@ =~= rom_loaded(m0, rom@, k as int));
        }
        Ok(())
    }

    pub fn mode(&self) -> (r: Chip8Mode)
        ensures
            r == self@.mode,
    {
        self.mode
    }

    /// The value of register `x`.
    pub fn register(&self, x: usize) -> (r: u8)
        requires
            self.wf(),
            x < 16,
        ensures
            r == self@.registers[x as int],
    {
        self.registers[x]
    }

    /// Set register `x` to `v`.
    pub fn set_register(&mut self, x: usize, v: u8)
        requires
            old(self).wf(),
            x < 16,
        ensures
            final(self).wf(),
            final(self)@ == set_reg(old(self)@, x as int, v),
    {
        self.put_reg(x, v);
    }

    /// The index register.
    pub fn index(&self) -> (r: u16)
        ensures
            r == self@.index,
    {
        self.index_reg
    }

    /// Set the index register.
    pub fn set_index(&mut self, i: u16)
        ensures
            final(self).wf() == old(self).wf(),
            final(self)@ == (MachineState { index: i, ..old(self)@ }),
    {
        self.index_reg = i;
    }

    /// The program counter.
    pub fn pc(&self) -> (r: u16)
        ensures
            r == self@.pc,
    {
        self.prog_counter
    }

    /// The number of return addresses on the stack.
    pub fn stack_depth(&self) -> (r: usize)
        ensures
            r == self@.stack.len(),
    {
        self.stack.len()
    }

    /// The byte at `addr`.
    pub fn read_memory(&self, addr: usize) -> (r: u8)
        requires
            self.wf(),
            addr < MEMORY_SIZE,
        ensures
            r == self@.memory[addr as int],
    {
        self.memory[addr]
    }

    /// The pixel at column `x`, row `y`.
    pub fn pixel(&self, x: usize, y: usize) -> (r: bool)
        requires
            self.wf(),
            x < 64,
            y < 32,
        ensures
            r == self@.pixels[y * 64 + x],
    {
        self.display.pixel(x, y)
    }

    /// Whether the display changed since the last call, clearing the request.
    pub fn take_redraw(&mut self) -> (r: bool)
        ensures
            final(self).wf() == old(self).wf(),
            r == old(self)@.redraw,
            final(self)@ == (MachineState { redraw: false, ..old(self)@ }),
    {
        self.display.take_redraw()
    }

    /// The delay timer.
    pub fn delay(&self) -> (r: u8)
        ensures
            r == self@.delay,
    {
        self.timers.read_delay()
    }

    /// The sound timer.
    pub fn sound(&self) -> (r: u8)
        ensures
            r == self@.sound,
    {
        self.timers.read_sound()
    }

    /// One 60 Hz tick of both timers.
    pub fn tick_timers(&mut self)
        ensures
            final(self).wf() == old(self).wf(),
            final(self)@ == (MachineState {
                delay: tick_value(old(self)@.delay),
                sound: tick_value(old(self)@.sound),
                ..old(self)@
            }),
    {
        self.timers.tick();
    }

    /// Whether key `k` is held down.
    pub fn key_pressed(&self, k: usize) -> (r: bool)
        requires
            self.wf(),
            k < 16,
        ensures
            r == self@.keys[k as int],
    {
        self.keys[k]
    }

    /// Record that key `k` went down.
    pub fn press_key(&mut self, k: usize)
        requires
            old(self).wf(),
            k < 16,
        ensures
            final(self).wf(),
            final(self)@ == (MachineState {
                keys: old(self)@.keys.update(k as int, true),
                ..old(self)@
            }),
    {
        self.keys.set(k, true);
    }

    /// Record that key `k` went up; a pending key wait then completes by
    /// writing `k` to its register.
    pub fn release_key(&mut self, k: usize)
        requires
            old(self).wf(),
            k < 16,
        ensures
            final(self).wf(),
            final(self)@ == (match old(self)@.waiting {
                Some(x) => MachineState {
                    keys: old(self)@.keys.update(k as int, false),
                    registers: old(self)@.registers.update(x as int, k as u8),
                    waiting: None,
                    ..old(self)@
                },
                None => MachineState {
                    keys: old(self)@.keys.update(k as int, false),
                    ..old(self)@
                },
            }),
    {
        self.keys.set(k, false);
        match self.waiting_key {
            Some(x) => {
                self.registers.set(x, k as u8);
                self.waiting_key = None;
            },
            None => {},
        }
    }

    /// Whether the machine waits for a key to be released.
    pub fn is_waiting_for_key(&self) -> (r: bool)
        ensures
            r == self@.waiting.is_some(),
    {
        self.waiting_key.is_some()
    }
}


/// After `ArithAdd(x, y)`, VF is 1 exactly when the 9-bit sum of the two
/// registers has its top bit set, and 0 otherwise.
pub proof fn lemma_add_sets_carry(s: MachineState, x: usize, y: usize, rnd: u8)
    requires
        state_wf(s),
        x < 16,
        y < 16,
    ensures
        execute_spec(s, Chip8Inst::ArithAdd(x, y), rnd) matches Ok(t) && t.registers[15] == (
        if ((s.registers[x as int] + s.registers[y as int]) as u16) & 0x100 != 0 {
            1u8
        } else {
            0u8
        }),
{
    let sum = (s.registers[x as int] as u16 + s.registers[y as int] as u16) as u16;
    assert((sum & 0x100 != 0) == (sum > 255)) by (bit_vector)
        requires
            sum <= 510,
    ;
}

/// After `Display`, VF is 1 exactly when some pixel that was on lay under a
/// set bit of the sprite, and 0 otherwise.
pub proof fn lemma_draw_flags_collision(s: MachineState, xr: usize, yr: usize, n: u8, rnd: u8)
    requires
        state_wf(s),
        xr < 16,
        yr < 16,
        n < 16,
    ensures
        execute_spec(s, Chip8Inst::Display(xr, yr, n), rnd) matches Ok(t) ==> {
            let x0 = (s.registers[xr as int] % 64) as int;
            let y0 = (s.registers[yr as int] % 32) as int;
            let rows = s.memory.subrange(s.index as int, s.index + visible_rows(n, y0));
            &&& (t.registers[15] == 1) == (exists|p: int|
                0 <= p < s.pixels.len() && in_sprite(p, x0, y0, rows.len() as int)
                    && #[trigger] s.pixels[p] && sprite_bit_at(p, x0, y0, rows))
            &&& (t.registers[15] == 0 || t.registers[15] == 1)
        },
{
}

/// `LoadMem(x)` and `StoreMem(x)` leave I unchanged in modern mode and
/// advance it by `x + 1` in original mode.
pub proof fn lemma_mem_transfer_index(s: MachineState, x: usize, rnd: u8)
    requires
        state_wf(s),
        x < 16,
    ensures
        execute_spec(s, Chip8Inst::LoadMem(x), rnd) matches Ok(t) ==> t.index == (
        if s.mode == Chip8Mode::Modern {
            s.index as int
        } else {
            s.index + x + 1
        }),
        execute_spec(s, Chip8Inst::StoreMem(x), rnd) matches Ok(t) ==> t.index == (
        if s.mode == Chip8Mode::Modern {
            s.index as int
        } else {
            s.index + x + 1
        }),
{
}

/// A `SubCall` followed at once by a `SubReturn` restores the program
/// counter and the stack.
pub proof fn lemma_call_return(s: MachineState, a: usize, rnd1: u8, rnd2: u8)
    requires
        state_wf(s),
        a < 0x1000,
    ensures
        execute_spec(s, Chip8Inst::SubCall(a), rnd1) matches Ok(t1) && execute_spec(
            t1,
            Chip8Inst::SubReturn,
            rnd2,
        ) matches Ok(t2) && t2.pc == s.pc && t2.stack == s.stack,
{
    let t1 = MachineState { stack: s.stack.push(s.pc), pc: a as u16, ..s };
    assert(t1.stack.drop_last() =~= s.stack);
}

/// With the font table in place, `LoadFont(x)` for a digit `d` in `V[x]`
/// points I at `0x050 + 5 * d`, where the five bytes of that digit's glyph lie.
pub proof fn lemma_font_lookup(s: MachineState, x: usize, rnd: u8)
    requires
        state_wf(s),
        x < 16,
        s.registers[x as int] <= 15,
        s.memory.subrange(FONT_BASE as int, FONT_BASE + 80) == font_spec(),
    ensures
        execute_spec(s, Chip8Inst::LoadFont(x), rnd) matches Ok(t) && {
            let d = s.registers[x as int] as int;
            &&& t.index == FONT_BASE + 5 * d
            &&& t.memory.subrange(t.index as int, t.index + 5) == font_spec().subrange(
                5 * d,
                5 * d + 5,
            )
        },
{
    let d = s.registers[x as int] as int;
    let t = MachineState { index: (FONT_BASE + 5 * (d % 16)) as u16, ..s };
    assert(t.memory.subrange(t.index as int, t.index + 5) =~= s.memory.subrange(
        FONT_BASE as int,
        FONT_BASE + 80,
    ).subrange(5 * d, 5 * d + 5));
}


} // verus!
