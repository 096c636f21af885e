//! Per-instruction semantics: arithmetic with its carry and borrow flags,
//! control flow, the draw operation with clipping and collision, and the
//! timer and memory operations.

use chip8_core::chip8::Chip8;
use chip8_core::model::StepEvent;

fn run(rom: &[u8], steps: usize) -> Chip8 {
    let mut machine = Chip8::new();
    machine.load(&rom.to_vec()).expect("program fits");
    for _ in 0..steps {
        machine.emulate().expect("step succeeds");
    }
    machine
}

#[test]
fn clear_blanks_every_cell() {
    // draw glyph 0 at (0, 0), then clear
    let mut machine = run(&[0xA0, 0x00, 0x60, 0x00, 0xD0, 0x05, 0x00, 0xE0], 3);
    assert_eq!(machine.display()[0], 1);
    assert_eq!(machine.emulate(), Ok(StepEvent::Executed));
    for &cell in machine.display() {
        assert_eq!(cell, 0);
    }
}

#[test]
fn load_immediate_sets_exactly() {
    let machine = run(&[0x6A, 0x7F], 1);
    assert_eq!(machine.register(10), 0x7F);
    let machine = run(&[0x6A, 0x10, 0x6A, 0x22], 2);
    assert_eq!(machine.register(10), 0x22);
}

#[test]
fn add_immediate_wraps_and_keeps_flag() {
    // flag register := 5, register 0 := 250, add 10
    let machine = run(&[0x6F, 0x05, 0x60, 0xFA, 0x70, 0x0A], 3);
    assert_eq!(machine.register(0), 4);
    assert_eq!(machine.register(15), 5);
}

#[test]
fn add_registers_sets_carry_and_wraps() {
    let machine = run(&[0x60, 0xC8, 0x61, 0x64, 0x80, 0x14], 3);
    assert_eq!(machine.register(0), 44);
    assert_eq!(machine.register(15), 1);
}

#[test]
fn add_registers_without_carry_keeps_flag() {
    let machine = run(&[0x6F, 0x09, 0x60, 0x0A, 0x61, 0x14, 0x80, 0x14], 4);
    assert_eq!(machine.register(0), 30);
    assert_eq!(machine.register(15), 9);
}

#[test]
fn sub_registers_borrow_wraps() {
    let machine = run(&[0x60, 0x05, 0x61, 0x0A, 0x80, 0x15], 3);
    assert_eq!(machine.register(0), 251);
    assert_eq!(machine.register(15), 0);
}

#[test]
fn sub_registers_without_borrow() {
    let machine = run(&[0x60, 0x0A, 0x61, 0x05, 0x80, 0x15], 3);
    assert_eq!(machine.register(0), 5);
    assert_eq!(machine.register(15), 1);
}

#[test]
fn alu_assign_or_and_xor() {
    let machine = run(&[0x60, 0x0C, 0x61, 0x0A, 0x80, 0x10], 3);
    assert_eq!(machine.register(0), 0x0A);
    let machine = run(&[0x60, 0x0C, 0x61, 0x0A, 0x80, 0x11], 3);
    assert_eq!(machine.register(0), 0x0E);
    let machine = run(&[0x60, 0x0C, 0x61, 0x0A, 0x80, 0x12], 3);
    assert_eq!(machine.register(0), 0x08);
    let machine = run(&[0x60, 0x0C, 0x61, 0x0A, 0x80, 0x13], 3);
    assert_eq!(machine.register(0), 0x06);
}

#[test]
fn shift_right_saves_lsb() {
    let machine = run(&[0x60, 0x07, 0x80, 0x06], 2);
    assert_eq!(machine.register(0), 3);
    assert_eq!(machine.register(15), 1);
}

#[test]
fn shift_left_saves_msb() {
    let machine = run(&[0x60, 0x81, 0x80, 0x0E], 2);
    assert_eq!(machine.register(0), 2);
    assert_eq!(machine.register(15), 1);
}

#[test]
fn jump_sets_program_counter() {
    let machine = run(&[0x12, 0x34], 1);
    assert_eq!(machine.program_counter(), 0x234);
}

#[test]
fn call_then_return_resumes_after_call() {
    // call a subroutine at 0x208 whose first word is the return
    let rom = [0x22, 0x08, 0x00, 0x00, 0x00, 0x00, 0x00, 0x00, 0x00, 0xEE];
    let mut machine = run(&rom, 1);
    assert_eq!(machine.program_counter(), 0x208);
    assert_eq!(machine.emulate(), Ok(StepEvent::Executed));
    assert_eq!(machine.program_counter(), 514);
}

#[test]
fn skip_if_equal_immediate() {
    let machine = run(&[0x60, 0x05, 0x30, 0x05], 2);
    assert_eq!(machine.program_counter(), 518);
    let machine = run(&[0x60, 0x05, 0x30, 0x06], 2);
    assert_eq!(machine.program_counter(), 516);
}

#[test]
fn skip_if_not_equal_immediate() {
    let machine = run(&[0x60, 0x05, 0x40, 0x06], 2);
    assert_eq!(machine.program_counter(), 518);
    let machine = run(&[0x60, 0x05, 0x40, 0x05], 2);
    assert_eq!(machine.program_counter(), 516);
}

#[test]
fn set_index_register() {
    let machine = run(&[0xA1, 0x23], 1);
    assert_eq!(machine.index_register(), 0x123);
}

#[test]
fn timers_set_tick_and_read_back() {
    let machine = run(&[0x60, 0x07, 0xF0, 0x15, 0xF0, 0x18, 0xF1, 0x07], 4);
    // the delay timer was set to 7, then ticked twice; the read of it
    // happens after the tick of its own step
    assert_eq!(machine.delay_timer(), 5);
    assert_eq!(machine.register(1), 5);
    assert_eq!(machine.sound_timer(), 6);
}

#[test]
fn add_register_to_index() {
    let machine = run(&[0xA0, 0xFF, 0x60, 0x02, 0xF0, 0x1E], 3);
    assert_eq!(machine.index_register(), 0x101);
}

#[test]
fn glyph_address_is_five_per_digit() {
    let machine = run(&[0x60, 0x0C, 0xF0, 0x29], 2);
    assert_eq!(machine.index_register(), 60);
}

#[test]
fn register_fill_is_inclusive() {
    // index := 0 (glyph 0: F0 90 90 90 F0), fill registers 0 through 2
    let machine = run(&[0xA0, 0x00, 0xF2, 0x65], 2);
    assert_eq!(machine.register(0), 0xF0);
    assert_eq!(machine.register(1), 0x90);
    assert_eq!(machine.register(2), 0x90);
    assert_eq!(machine.register(3), 0);
}

#[test]
fn draw_clips_at_right_edge() {
    // a full 0xFF row drawn at x = 60 lights only columns 60..63
    let rom = [0x60, 0x3C, 0x61, 0x00, 0xA2, 0x08, 0xD0, 0x11, 0xFF];
    let machine = run(&rom, 4);
    let mut lit: usize = 0;
    for (c, &cell) in machine.display().iter().enumerate() {
        if cell == 1 {
            lit += 1;
            let x = c / 32;
            let y = c % 32;
            assert!(y == 0 && (60..64).contains(&x));
        }
    }
    assert_eq!(lit, 4);
    assert_eq!(machine.register(15), 0);
}

#[test]
fn draw_twice_toggles_off_and_collides() {
    // glyph 0 drawn once at (0, 0): cells lit, no collision
    let machine = run(&[0xA0, 0x00, 0x60, 0x00, 0xD0, 0x05], 3);
    assert_eq!(machine.display()[0], 1);
    assert_eq!(machine.register(15), 0);
    // the same program with a second identical draw: every cell off again,
    // and the collision flag raised
    let machine = run(&[0xA0, 0x00, 0x60, 0x00, 0xD0, 0x05, 0xD0, 0x05], 4);
    for &cell in machine.display() {
        assert_eq!(cell, 0);
    }
    assert_eq!(machine.register(15), 1);
}

#[test]
fn key_skip_instructions() {
    // with key 3 pressed: Ex9E skips, ExA1 does not
    let mut machine = Chip8::new();
    machine
        .load(&vec![0x60, 0x03, 0xE0, 0x9E, 0x00, 0x00, 0xE0, 0xA1])
        .expect("program fits");
    machine.register_key(3);
    assert_eq!(machine.emulate(), Ok(StepEvent::Executed));
    assert_eq!(machine.emulate(), Ok(StepEvent::Executed));
    assert_eq!(machine.program_counter(), 518);
    assert_eq!(machine.emulate(), Ok(StepEvent::Executed));
    assert_eq!(machine.program_counter(), 520);
    // without the key: Ex9E does not skip
    let machine = run(&[0x60, 0x03, 0xE0, 0x9E], 2);
    assert_eq!(machine.program_counter(), 516);
}
