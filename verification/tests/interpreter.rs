//! Machine-level behaviour: construction, loading, the key-wait state
//! machine, the diagnostic channel and every recoverable error condition.

use chip8_core::chip8::Chip8;
use chip8_core::chip8::LoadError;
use chip8_core::model::StepError;
use chip8_core::model::StepEvent;

fn boot(rom: &[u8]) -> Chip8 {
    let mut machine = Chip8::new();
    machine.load(&rom.to_vec()).expect("program fits");
    machine
}

#[test]
fn new_machine_is_blank() {
    let machine = Chip8::new();
    assert_eq!(machine.program_counter(), 512);
    assert_eq!(machine.index_register(), 0);
    assert_eq!(machine.delay_timer(), 0);
    assert_eq!(machine.sound_timer(), 0);
    assert!(!machine.is_waiting());
    for i in 0..16 {
        assert_eq!(machine.register(i), 0);
    }
    assert_eq!(machine.display().len(), 2048);
    for &cell in machine.display() {
        assert_eq!(cell, 0);
    }
    // the font's first glyph and last glyph bytes
    assert_eq!(machine.memory()[0], 0xF0);
    assert_eq!(machine.memory()[4], 0xF0);
    assert_eq!(machine.memory()[75], 0xF0);
    assert_eq!(machine.memory()[79], 0x80);
    for a in 80..4096 {
        assert_eq!(machine.memory()[a], 0);
    }
}

#[test]
fn load_copies_program_verbatim() {
    let mut machine = Chip8::new();
    let rom = vec![0x12, 0x34, 0x56, 0x78, 0x9A];
    assert!(machine.load(&rom).is_ok());
    for (i, &b) in rom.iter().enumerate() {
        assert_eq!(machine.memory()[512 + i], b);
    }
    assert_eq!(machine.memory()[512 + rom.len()], 0);
    // the font survives a load
    assert_eq!(machine.memory()[0], 0xF0);
    assert_eq!(machine.memory()[79], 0x80);
}

#[test]
fn load_fills_memory_to_the_end() {
    let mut machine = Chip8::new();
    let rom = vec![0xAB; 3584];
    assert!(machine.load(&rom).is_ok());
    assert_eq!(machine.memory()[512], 0xAB);
    assert_eq!(machine.memory()[4095], 0xAB);
    assert_eq!(machine.memory()[511], 0);
}

#[test]
fn load_rejects_oversized_program() {
    let mut machine = Chip8::new();
    let rom = vec![0xAB; 3585];
    assert_eq!(machine.load(&rom), Err(LoadError::CapacityExceeded));
    // nothing was written
    assert_eq!(machine.memory()[512], 0);
    let huge = vec![0xCD; 4000];
    assert_eq!(machine.load(&huge), Err(LoadError::CapacityExceeded));
}

#[test]
fn end_to_end_two_adds() {
    // register 0 := 5, then add 10 to it
    let mut machine = boot(&[0x60, 0x05, 0x70, 0x0A]);
    assert_eq!(machine.emulate(), Ok(StepEvent::Executed));
    assert_eq!(machine.register(0), 5);
    assert_eq!(machine.emulate(), Ok(StepEvent::Executed));
    assert_eq!(machine.register(0), 15);
    assert_eq!(machine.program_counter(), 516);
    // the zero-filled word beyond the program matches no instruction:
    // the step only advances the program counter
    assert_eq!(machine.emulate(), Ok(StepEvent::UnknownOpcode(0x0000)));
    assert_eq!(machine.program_counter(), 518);
    assert_eq!(machine.register(0), 15);
    for &cell in machine.display() {
        assert_eq!(cell, 0);
    }
}

#[test]
fn fx0a_blocks_without_key() {
    let mut machine = boot(&[0xF3, 0x0A]);
    assert_eq!(machine.emulate(), Ok(StepEvent::Executed));
    assert!(machine.is_waiting());
    assert_eq!(machine.program_counter(), 514);
    for _ in 0..5 {
        assert_eq!(machine.emulate(), Ok(StepEvent::WaitingForKey));
        assert_eq!(machine.program_counter(), 514);
        assert_eq!(machine.register(3), 0);
        assert!(machine.is_waiting());
    }
}

#[test]
fn fx0a_takes_lowest_pressed_key() {
    let mut machine = boot(&[0xF3, 0x0A]);
    assert_eq!(machine.emulate(), Ok(StepEvent::Executed));
    machine.register_key(7);
    machine.register_key(3);
    assert_eq!(machine.emulate(), Ok(StepEvent::KeyCaptured(3)));
    assert_eq!(machine.register(3), 3);
    assert!(!machine.is_waiting());
    assert_eq!(machine.program_counter(), 514);
}

#[test]
fn fx0a_resumes_after_capture() {
    let mut machine = boot(&[0xF3, 0x0A, 0x60, 0x09]);
    assert_eq!(machine.emulate(), Ok(StepEvent::Executed));
    machine.register_key(0);
    assert_eq!(machine.emulate(), Ok(StepEvent::KeyCaptured(0)));
    assert_eq!(machine.register(3), 0);
    // back to running: the next step fetches the following instruction
    assert_eq!(machine.emulate(), Ok(StepEvent::Executed));
    assert_eq!(machine.register(0), 9);
    assert_eq!(machine.program_counter(), 516);
}

#[test]
fn clear_keys_unpresses_everything() {
    let mut machine = boot(&[0xF0, 0x0A]);
    machine.register_key(2);
    machine.clear_keys();
    assert_eq!(machine.emulate(), Ok(StepEvent::Executed));
    // the latch was cleared before the wait began, so the wait holds
    assert_eq!(machine.emulate(), Ok(StepEvent::WaitingForKey));
    assert!(machine.is_waiting());
}

#[test]
fn pc_out_of_range_is_reported() {
    // jump to the last byte of memory; the next fetch cannot read two bytes
    let mut machine = boot(&[0x1F, 0xFF]);
    assert_eq!(machine.emulate(), Ok(StepEvent::Executed));
    assert_eq!(machine.program_counter(), 0xFFF);
    assert_eq!(machine.emulate(), Err(StepError::PcOutOfRange));
    assert_eq!(machine.program_counter(), 0xFFF);
}

#[test]
fn stack_overflow_is_reported() {
    // a subroutine that calls itself: slots 1..15 fill, the 16th call is
    // rejected
    let mut machine = boot(&[0x22, 0x00]);
    for _ in 0..15 {
        assert_eq!(machine.emulate(), Ok(StepEvent::Executed));
        assert_eq!(machine.program_counter(), 512);
    }
    assert_eq!(machine.emulate(), Err(StepError::StackOverflow));
    // the rejected call still consumed its fetch
    assert_eq!(machine.program_counter(), 514);
}

#[test]
fn stack_underflow_is_reported() {
    let mut machine = boot(&[0x00, 0xEE]);
    assert_eq!(machine.emulate(), Err(StepError::StackUnderflow));
    assert_eq!(machine.program_counter(), 514);
}

#[test]
fn draw_read_past_memory_is_reported() {
    // index := 0xFFF, then a five-row draw would read past the end of memory
    let mut machine = boot(&[0xAF, 0xFF, 0xD0, 0x15]);
    assert_eq!(machine.emulate(), Ok(StepEvent::Executed));
    assert_eq!(machine.emulate(), Err(StepError::MemoryOutOfRange));
    for &cell in machine.display() {
        assert_eq!(cell, 0);
    }
    assert_eq!(machine.register(15), 0);
}

#[test]
fn register_fill_past_memory_is_reported() {
    let mut machine = boot(&[0xAF, 0xFF, 0xF5, 0x65]);
    assert_eq!(machine.emulate(), Ok(StepEvent::Executed));
    assert_eq!(machine.emulate(), Err(StepError::MemoryOutOfRange));
    for i in 0..16 {
        assert_eq!(machine.register(i), 0);
    }
}

#[test]
fn key_test_with_bad_code_is_reported() {
    let mut machine = boot(&[0x60, 0x20, 0xE0, 0x9E]);
    assert_eq!(machine.emulate(), Ok(StepEvent::Executed));
    assert_eq!(machine.emulate(), Err(StepError::KeyOutOfRange));
    assert_eq!(machine.program_counter(), 516);
}

#[test]
fn unknown_opcode_still_ticks_timers() {
    // set the delay timer to 5, then run an unimplemented word
    let mut machine = boot(&[0x60, 0x05, 0xF0, 0x15, 0x51, 0x20]);
    assert_eq!(machine.emulate(), Ok(StepEvent::Executed));
    assert_eq!(machine.emulate(), Ok(StepEvent::Executed));
    assert_eq!(machine.delay_timer(), 5);
    assert_eq!(machine.emulate(), Ok(StepEvent::UnknownOpcode(0x5120)));
    assert_eq!(machine.program_counter(), 518);
    assert_eq!(machine.delay_timer(), 4);
    assert_eq!(machine.sound_timer(), 0);
    assert_eq!(machine.register(0), 5);
}
