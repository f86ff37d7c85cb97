use rchip8::insts::Chip8Inst;
use rchip8::machine::{
    font, Chip8Error, Chip8Machine, Chip8Mode, DecodeError, StepEvent, FONT_BASE, MAX_ROM_SIZE,
};

fn machine_with(mode: Chip8Mode, rom: &[u8]) -> Chip8Machine {
    let mut m = Chip8Machine::new(mode);
    m.load_rom(rom).unwrap();
    m
}

#[test]
fn test_load_font() {
    let m = Chip8Machine::new(Chip8Mode::Modern);
    let f = font();
    for i in 0..f.len() {
        assert_eq!(f[i], m.read_memory(FONT_BASE + i));
    }
    assert_eq!(m.pc(), 0x200);
}

#[test]
fn test_load_rom() {
    let m = machine_with(Chip8Mode::Modern, &[0x12, 0x34, 0x56, 0x78, 0x9a, 0xbc, 0xde, 0xf0]);
    let expected = [
        (0x00, 0x1ff),
        (0x12, 0x200),
        (0x34, 0x201),
        (0x56, 0x202),
        (0x78, 0x203),
        (0x9a, 0x204),
        (0xbc, 0x205),
        (0xde, 0x206),
        (0xf0, 0x207),
        (0x00, 0x208),
    ];
    for (value, addr) in expected {
        assert_eq!(value, m.read_memory(addr));
    }
}

#[test]
fn load_rom_refuses_oversized_image() {
    let mut m = Chip8Machine::new(Chip8Mode::Modern);
    let rom = vec![0xaa; MAX_ROM_SIZE + 1];
    assert_eq!(m.load_rom(&rom), Err(Chip8Error::RomTooLarge(MAX_ROM_SIZE + 1)));
    assert_eq!(m.read_memory(0x200), 0);
    let rom = vec![0xaa; MAX_ROM_SIZE];
    assert_eq!(m.load_rom(&rom), Ok(()));
    assert_eq!(m.read_memory(0xfff), 0xaa);
}

#[test]
fn ibm_style_clear_and_draw() {
    let mut rom = vec![0x00, 0xe0, 0x61, 0x0a, 0x62, 0x05, 0xa2, 0x10, 0xd1, 0x25, 0x12, 0x0e];
    rom.resize(0x10, 0);
    let sprite = [0xf0u8, 0x90, 0xf0, 0x90, 0x90];
    rom.extend_from_slice(&sprite);
    let mut m = machine_with(Chip8Mode::Modern, &rom);
    for _ in 0..6 {
        assert_eq!(m.step(), Ok(StepEvent::Continue));
    }
    assert_eq!(m.pc(), 0x20e);
    assert_eq!(m.register(0xf), 0);
    for y in 0..32 {
        for x in 0..64 {
            let lit = x >= 10
                && x < 18
                && y >= 5
                && y < 10
                && (sprite[y - 5] >> (7 - (x - 10))) & 1 == 1;
            assert_eq!(m.pixel(x, y), lit, "pixel ({}, {})", x, y);
        }
    }
    assert!(m.take_redraw());
    assert!(!m.take_redraw());
}

#[test]
fn arithmetic_flags() {
    let mut m = machine_with(Chip8Mode::Modern, &[0x80, 0x14]);
    m.set_register(0, 0xff);
    m.set_register(1, 0x01);
    assert_eq!(m.step(), Ok(StepEvent::Continue));
    assert_eq!(m.register(0), 0x00);
    assert_eq!(m.register(0xf), 1);
}

#[test]
fn subtract_borrow() {
    let mut m = machine_with(Chip8Mode::Modern, &[0x80, 0x15]);
    m.set_register(0, 0x05);
    m.set_register(1, 0x0a);
    m.step().unwrap();
    assert_eq!(m.register(0), 0xfb);
    assert_eq!(m.register(0xf), 0);
}

#[test]
fn subtract_without_borrow_and_reverse() {
    let mut m = machine_with(Chip8Mode::Modern, &[0x80, 0x15, 0x82, 0x37]);
    m.set_register(0, 0x0a);
    m.set_register(1, 0x05);
    m.set_register(2, 0x05);
    m.set_register(3, 0x0a);
    m.step().unwrap();
    assert_eq!(m.register(0), 0x05);
    assert_eq!(m.register(0xf), 1);
    m.step().unwrap();
    assert_eq!(m.register(2), 0x05);
    assert_eq!(m.register(0xf), 1);
}

#[test]
fn shift_modern_and_original() {
    let mut m = machine_with(Chip8Mode::Modern, &[0x82, 0x16]);
    m.set_register(2, 0x81);
    m.step().unwrap();
    assert_eq!(m.register(2), 0x40);
    assert_eq!(m.register(0xf), 1);

    let mut m = machine_with(Chip8Mode::Original, &[0x82, 0x16]);
    m.set_register(1, 0x81);
    m.set_register(2, 0x00);
    m.step().unwrap();
    assert_eq!(m.register(2), 0x40);
    assert_eq!(m.register(0xf), 1);
}

#[test]
fn shift_left_sets_flag_from_top_bit() {
    let mut m = machine_with(Chip8Mode::Modern, &[0x83, 0x0e, 0x83, 0x0e]);
    m.set_register(3, 0xc1);
    m.step().unwrap();
    assert_eq!(m.register(3), 0x82);
    assert_eq!(m.register(0xf), 1);
    m.set_register(3, 0x41);
    m.step().unwrap();
    assert_eq!(m.register(3), 0x82);
    assert_eq!(m.register(0xf), 0);
}

#[test]
fn jump_vs_jump_reg() {
    let mut m = machine_with(Chip8Mode::Modern, &[0xb2, 0x00]);
    m.set_register(0, 0x10);
    m.step().unwrap();
    assert_eq!(m.pc(), 0x210);
    let mut m = machine_with(Chip8Mode::Modern, &[0x12, 0x00]);
    m.set_register(0, 0x10);
    m.step().unwrap();
    assert_eq!(m.pc(), 0x200);
}

#[test]
fn bcd() {
    let mut m = machine_with(Chip8Mode::Modern, &[0xf0, 0x33]);
    m.set_register(0, 0xc7);
    m.set_index(0x300);
    m.step().unwrap();
    assert_eq!(m.read_memory(0x300), 1);
    assert_eq!(m.read_memory(0x301), 9);
    assert_eq!(m.read_memory(0x302), 9);
}

#[test]
fn test_bcd_convert() {
    let mut m = Chip8Machine::new(Chip8Mode::Modern);
    m.set_register(0, 0xd4);
    m.set_index(0x500);
    m.execute(Chip8Inst::BCDConvert(0x0)).unwrap();
    assert_eq!(0x2, m.read_memory(0x500));
    assert_eq!(0x1, m.read_memory(0x501));
    assert_eq!(0x2, m.read_memory(0x502));
}

#[test]
fn test_assign() {
    let mut m = Chip8Machine::new(Chip8Mode::Modern);
    m.set_register(0xf, 77);
    m.execute(Chip8Inst::Assign(0x0, 0xf)).unwrap();
    assert_eq!(77, m.register(0));
}

#[test]
fn test_store_mem_modern() {
    let mut m = Chip8Machine::new(Chip8Mode::Modern);
    m.set_register(0, 0x5);
    m.set_register(1, 0xa);
    m.set_register(2, 0xf);
    m.set_register(3, 0x7);
    m.set_index(0x500);
    m.execute(Chip8Inst::StoreMem(0x2)).unwrap();
    assert_eq!(0x5, m.read_memory(0x500));
    assert_eq!(0xa, m.read_memory(0x501));
    assert_eq!(0xf, m.read_memory(0x502));
    assert_eq!(0x0, m.read_memory(0x503));
    assert_eq!(m.index(), 0x500);
}

#[test]
fn test_load_mem_modern() {
    let mut m = Chip8Machine::new(Chip8Mode::Modern);
    m.load_rom(&[0x5, 0xa, 0xf]).unwrap();
    m.set_index(0x200);
    m.execute(Chip8Inst::LoadMem(0x2)).unwrap();
    assert_eq!(0x5, m.register(0));
    assert_eq!(0xa, m.register(1));
    assert_eq!(0xf, m.register(2));
    assert_eq!(0x0, m.register(3));
    assert_eq!(m.index(), 0x200);
}

#[test]
fn memory_transfer_advances_index_in_original_mode() {
    let mut m = Chip8Machine::new(Chip8Mode::Original);
    m.set_index(0x400);
    m.execute(Chip8Inst::StoreMem(0x3)).unwrap();
    assert_eq!(m.index(), 0x404);
    m.execute(Chip8Inst::LoadMem(0x1)).unwrap();
    assert_eq!(m.index(), 0x406);
}

#[test]
fn test_read_and_set_timers() {
    let mut m = Chip8Machine::new(Chip8Mode::Modern);
    m.set_register(0, 0x20);
    m.execute(Chip8Inst::SetDelay(0x0)).unwrap();
    assert_eq!(m.delay(), 0x20);
    m.execute(Chip8Inst::SetSound(0x0)).unwrap();
    assert_eq!(m.sound(), 0x20);
    m.tick_timers();
    m.execute(Chip8Inst::ReadDelay(0x1)).unwrap();
    assert_eq!(m.register(1), 0x1f);
    assert_eq!(m.sound(), 0x1f);
}

#[test]
fn timer_reaches_zero_after_sixty_ticks() {
    let mut m = Chip8Machine::new(Chip8Mode::Modern);
    m.set_register(0, 60);
    m.execute(Chip8Inst::SetDelay(0x0)).unwrap();
    for _ in 0..59 {
        m.tick_timers();
    }
    assert_eq!(m.delay(), 1);
    m.tick_timers();
    assert_eq!(m.delay(), 0);
    m.tick_timers();
    assert_eq!(m.delay(), 0);
}

#[test]
fn add_flag_follows_ninth_bit() {
    let mut m = Chip8Machine::new(Chip8Mode::Modern);
    m.set_register(4, 0x80);
    m.set_register(5, 0x80);
    m.execute(Chip8Inst::ArithAdd(4, 5)).unwrap();
    assert_eq!(m.register(4), 0x00);
    assert_eq!(m.register(0xf), 1);
    m.set_register(4, 0x10);
    m.set_register(5, 0x20);
    m.execute(Chip8Inst::ArithAdd(4, 5)).unwrap();
    assert_eq!(m.register(4), 0x30);
    assert_eq!(m.register(0xf), 0);
}

#[test]
fn drawing_twice_collides_and_erases() {
    let mut m = Chip8Machine::new(Chip8Mode::Modern);
    m.set_register(0, 62);
    m.set_register(1, 30);
    m.execute(Chip8Inst::LoadFont(0)).unwrap();
    m.set_index(FONT_BASE as u16);
    m.execute(Chip8Inst::Display(0, 1, 5)).unwrap();
    assert_eq!(m.register(0xf), 0);
    assert!(m.pixel(62, 30));
    assert!(m.pixel(63, 30));
    assert!(!m.pixel(0, 30));
    assert!(!m.pixel(62, 0));
    m.execute(Chip8Inst::Display(0, 1, 5)).unwrap();
    assert_eq!(m.register(0xf), 1);
    for y in 0..32 {
        for x in 0..64 {
            assert!(!m.pixel(x, y));
        }
    }
}

#[test]
fn draw_start_corner_wraps() {
    let mut m = Chip8Machine::new(Chip8Mode::Modern);
    m.set_register(0, 64 + 3);
    m.set_register(1, 32 + 2);
    m.set_index(FONT_BASE as u16);
    m.execute(Chip8Inst::Display(0, 1, 1)).unwrap();
    assert!(m.pixel(3, 2));
    assert!(m.pixel(6, 2));
    assert!(!m.pixel(7, 2));
}

#[test]
fn clear_screen_turns_pixels_off() {
    let mut m = Chip8Machine::new(Chip8Mode::Modern);
    m.set_index(FONT_BASE as u16);
    m.execute(Chip8Inst::Display(0, 0, 5)).unwrap();
    assert!(m.pixel(0, 0));
    m.take_redraw();
    m.execute(Chip8Inst::ClearScreen).unwrap();
    assert!(!m.pixel(0, 0));
    assert!(m.take_redraw());
}

#[test]
fn call_then_return_restores_pc() {
    let mut m = machine_with(Chip8Mode::Modern, &[0x23, 0x00]);
    m.step().unwrap();
    assert_eq!(m.pc(), 0x300);
    assert_eq!(m.stack_depth(), 1);
    m.execute(Chip8Inst::SubReturn).unwrap();
    assert_eq!(m.pc(), 0x202);
    assert_eq!(m.stack_depth(), 0);
}

#[test]
fn return_on_empty_stack_fails() {
    let mut m = machine_with(Chip8Mode::Modern, &[0x00, 0xee]);
    assert_eq!(m.step(), Err(Chip8Error::StackUnderflow));
    assert_eq!(m.pc(), 0x200);
}

#[test]
fn bad_opcode_fails_with_its_address() {
    let mut m = machine_with(Chip8Mode::Modern, &[0x00, 0xe0, 0x51, 0x21]);
    m.step().unwrap();
    assert_eq!(
        m.step(),
        Err(Chip8Error::BadInstruction(DecodeError { opcode: 0x5121, pc: 0x202 }))
    );
    assert_eq!(m.pc(), 0x202);
}

#[test]
fn memory_access_past_the_end_fails() {
    let mut m = Chip8Machine::new(Chip8Mode::Modern);
    m.set_index(0xffe);
    assert_eq!(m.execute(Chip8Inst::BCDConvert(0)), Err(Chip8Error::BadAddress(0xffe)));
    assert_eq!(m.execute(Chip8Inst::StoreMem(2)), Err(Chip8Error::BadAddress(0xffe)));
    assert_eq!(m.execute(Chip8Inst::LoadMem(2)), Err(Chip8Error::BadAddress(0xffe)));
    assert_eq!(m.execute(Chip8Inst::Display(0, 0, 5)), Err(Chip8Error::BadAddress(0xffe)));
    let mut m = machine_with(Chip8Mode::Modern, &[0x1f, 0xff]);
    m.step().unwrap();
    assert_eq!(m.step(), Err(Chip8Error::BadAddress(0xfff)));
}

#[test]
fn add_index_sets_flag_past_memory() {
    let mut m = Chip8Machine::new(Chip8Mode::Modern);
    m.set_index(0xff0);
    m.set_register(2, 0x20);
    m.execute(Chip8Inst::AddIndex(2)).unwrap();
    assert_eq!(m.index(), 0x1010);
    assert_eq!(m.register(0xf), 1);
    m.set_index(0x100);
    m.set_register(0xf, 0);
    m.execute(Chip8Inst::AddIndex(2)).unwrap();
    assert_eq!(m.index(), 0x120);
    assert_eq!(m.register(0xf), 0);
}

#[test]
fn font_lookup_points_at_each_glyph() {
    let f = font();
    for d in 0..16u8 {
        let mut m = Chip8Machine::new(Chip8Mode::Modern);
        m.set_register(3, d);
        m.execute(Chip8Inst::LoadFont(3)).unwrap();
        let i = m.index() as usize;
        assert_eq!(i, 0x050 + 5 * d as usize);
        for k in 0..5 {
            assert_eq!(m.read_memory(i + k), f[5 * d as usize + k]);
        }
    }
}

#[test]
fn random_is_masked() {
    let mut m = Chip8Machine::new(Chip8Mode::Modern);
    m.execute_with(Chip8Inst::Random(4, 0x0f), 0xab).unwrap();
    assert_eq!(m.register(4), 0x0b);
    for _ in 0..50 {
        m.execute(Chip8Inst::Random(4, 0x11)).unwrap();
        assert_eq!(m.register(4) & !0x11, 0);
    }
}

#[test]
fn skips_and_register_ops() {
    let mut m = Chip8Machine::new(Chip8Mode::Modern);
    m.set_register(1, 0x42);
    m.set_register(2, 0x42);
    m.execute(Chip8Inst::SkipEqConst(1, 0x42)).unwrap();
    assert_eq!(m.pc(), 0x202);
    m.execute(Chip8Inst::SkipNeqConst(1, 0x42)).unwrap();
    assert_eq!(m.pc(), 0x202);
    m.execute(Chip8Inst::SkipEqReg(1, 2)).unwrap();
    assert_eq!(m.pc(), 0x204);
    m.execute(Chip8Inst::SkipNeqReg(1, 2)).unwrap();
    assert_eq!(m.pc(), 0x204);
    m.execute(Chip8Inst::RegAddNoCarry(1, 0xc0)).unwrap();
    assert_eq!(m.register(1), 0x02);
    assert_eq!(m.register(0xf), 0);
    m.execute(Chip8Inst::BinOr(1, 2)).unwrap();
    assert_eq!(m.register(1), 0x42);
    m.execute(Chip8Inst::BinXor(1, 2)).unwrap();
    assert_eq!(m.register(1), 0x00);
    m.set_register(1, 0x0f);
    m.execute(Chip8Inst::BinAnd(1, 2)).unwrap();
    assert_eq!(m.register(1), 0x02);
}

#[test]
fn key_skips_read_the_key_state() {
    let mut m = Chip8Machine::new(Chip8Mode::Modern);
    m.set_register(0, 0x1a);
    m.execute(Chip8Inst::SkipEqKey(0)).unwrap();
    assert_eq!(m.pc(), 0x200);
    m.execute(Chip8Inst::SkipNeqKey(0)).unwrap();
    assert_eq!(m.pc(), 0x202);
    m.press_key(0xa);
    assert!(m.key_pressed(0xa));
    m.execute(Chip8Inst::SkipEqKey(0)).unwrap();
    assert_eq!(m.pc(), 0x204);
}

#[test]
fn get_key_waits_for_release() {
    let mut m = machine_with(Chip8Mode::Modern, &[0xf5, 0x0a, 0x00, 0xe0]);
    assert_eq!(m.step(), Ok(StepEvent::WaitingForKey));
    assert!(m.is_waiting_for_key());
    assert_eq!(m.pc(), 0x202);
    assert_eq!(m.step(), Ok(StepEvent::WaitingForKey));
    assert_eq!(m.pc(), 0x202);
    m.press_key(7);
    m.release_key(7);
    assert!(!m.key_pressed(7));
    assert!(!m.is_waiting_for_key());
    assert_eq!(m.register(5), 7);
    assert_eq!(m.step(), Ok(StepEvent::Continue));
    assert_eq!(m.pc(), 0x204);
}

#[test]
fn machine_inst_is_a_no_op() {
    let mut m = machine_with(Chip8Mode::Modern, &[0x01, 0x62]);
    assert_eq!(m.step(), Ok(StepEvent::Continue));
    assert_eq!(m.pc(), 0x202);
    assert_eq!(m.mode(), Chip8Mode::Modern);
}
