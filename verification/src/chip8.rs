//! The executable interpreter: the machine state and its operations, each
//! specified against the ghost model in [`crate::model`].

use vstd::prelude::*;

use crate::model::Chip8View;
use crate::model::StepError;
use crate::model::StepEvent;
use crate::model::DISPLAY_CELLS;
use crate::model::DISPLAY_SIZE;
use crate::model::FONTSET_SIZE;
use crate::model::KEY_NUM;
use crate::model::MEM_SIZE;
use crate::model::PC_START;
use crate::model::REGISTER_NUM;
use crate::model::STACK_LAYERS;
use crate::model::STACK_SIZE;
use crate::model::XPX;
use crate::model::YPX;
use crate::model::any_pressed;
use crate::model::draw_collides;
use crate::model::draw_display;
use crate::model::draw_h;
use crate::model::draw_lit;
use crate::model::draw_mem_ok;
use crate::model::draw_rows;
use crate::model::draw_x;
use crate::model::draw_y;
use crate::model::first_pressed_from;
use crate::model::flip;
use crate::model::font_loaded;
use crate::model::lemma_first_pressed_from;
use crate::model::lemma_op_fields;
use crate::model::load_mem;
use crate::model::load_ok;
use crate::model::op_x;
use crate::model::opcode_at;
use crate::model::spec_alu;
use crate::model::spec_draw;
use crate::model::spec_fops;
use crate::model::step_result;
use crate::model::step_state;
use crate::model::tick;

verus! {

/// Why a program could not be loaded.
#[derive(Clone, Copy, Debug, PartialEq, Eq, Structural)]
pub enum LoadError {
    /// The program does not fit in the memory remaining after the reserved
    /// regions.
    CapacityExceeded,
}

/// The interpreter state: memory, registers, display, call stack, timers and
/// the key latch, advanced one instruction at a time by [`Chip8::emulate`].
pub struct Chip8 {
    /// 4096 bytes of memory; the glyph font sits in the first 80.
    memory: Vec<u8>,
    /// 16 general-purpose registers; register 15 doubles as the flag register.
    register: Vec<u8>,
    /// Program counter, a byte address into memory.
    program_counter: u16,
    /// Index register, a memory address used by draw and register-fill.
    index_register: u16,
    /// 64 x 32 binary display, column-major: cell (x, y) at x * 32 + y.
    display: Vec<u8>,
    /// Delay timer, decremented once per executed instruction, floored at 0.
    delay_timer: u8,
    /// Sound timer, decremented once per executed instruction, floored at 0.
    sound_timer: u8,
    /// 16 return-address slots for subroutine calls.
    stack: Vec<u16>,
    /// Current stack level, in [0, 15].
    stack_pointer: usize,
    /// 16 key states, 1 = pressed, set by the caller before each step.
    key: Vec<u8>,
    /// Whether execution is suspended until a key press.
    wait_for_key: bool,
    /// Register that receives the key code once the wait ends.
    wait_for_key_register: usize,
}

impl View for Chip8 {
    type V = Chip8View;

    closed spec fn view(&self) -> Chip8View {
        Chip8View {
            mem: self.memory@,
            reg: self.register@,
            pc: self.program_counter,
            index: self.index_register,
            display: self.display@,
            delay: self.delay_timer,
            sound: self.sound_timer,
            stack: self.stack@,
            sp: self.stack_pointer as int,
            key: self.key@,
            waiting: self.wait_for_key,
            wait_reg: self.wait_for_key_register as int,
        }
    }
}

/// A zero-filled byte vector of the given length.
fn zero_bytes(n: usize) -> (v: Vec<u8>)
    ensures
        v@.len() == n,
        forall|i: int| 0 <= i < n ==> v@[i] == 0,
{
    let mut v: Vec<u8> = Vec::new();
    while v.len() < n
        invariant
            v@.len() <= n,
            forall|i: int| 0 <= i < v@.len() ==> v@[i] == 0,
        decreases n - v@.len(),
    {
        v.push(0);
    }
    v
}

/// A zero-filled vector of 16-bit words of the given length.
fn zero_words(n: usize) -> (v: Vec<u16>)
    ensures
        v@.len() == n,
        forall|i: int| 0 <= i < n ==> v@[i] == 0,
{
    let mut v: Vec<u16> = Vec::new();
    while v.len() < n
        invariant
            v@.len() <= n,
            forall|i: int| 0 <= i < v@.len() ==> v@[i] == 0,
        decreases n - v@.len(),
    {
        v.push(0);
    }
    v
}

/// Writes the 80-byte glyph font into the bottom of memory.
#[verifier::rlimit(100)]
fn write_font(mem: &mut Vec<u8>)
    requires
        old(mem)@.len() == MEM_SIZE,
    ensures
        final(mem)@.len() == MEM_SIZE,
        font_loaded(final(mem)@),
        forall|a: int| FONTSET_SIZE <= a < MEM_SIZE ==> final(mem)@[a] == old(mem)@[a],
{
    // glyph 0
    mem[0] = 0xF0; mem[1] = 0x90; mem[2] = 0x90; mem[3] = 0x90; mem[4] = 0xF0;
    // glyph 1
    mem[5] = 0x20; mem[6] = 0x60; mem[7] = 0x20; mem[8] = 0x20; mem[9] = 0x70;
    // glyph 2
    mem[10] = 0xF0; mem[11] = 0x10; mem[12] = 0xF0; mem[13] = 0x80; mem[14] = 0xF0;
    // glyph 3
    mem[15] = 0xF0; mem[16] = 0x10; mem[17] = 0xF0; mem[18] = 0x10; mem[19] = 0xF0;
    // glyph 4
    mem[20] = 0x90; mem[21] = 0x90; mem[22] = 0xF0; mem[23] = 0x10; mem[24] = 0x10;
    // glyph 5
    mem[25] = 0xF0; mem[26] = 0x80; mem[27] = 0xF0; mem[28] = 0x10; mem[29] = 0xF0;
    // glyph 6
    mem[30] = 0xF0; mem[31] = 0x80; mem[32] = 0xF0; mem[33] = 0x90; mem[34] = 0xF0;
    // glyph 7
    mem[35] = 0xF0; mem[36] = 0x10; mem[37] = 0x20; mem[38] = 0x40; mem[39] = 0x40;
    // glyph 8
    mem[40] = 0xF0; mem[41] = 0x90; mem[42] = 0xF0; mem[43] = 0x90; mem[44] = 0xF0;
    // glyph 9
    mem[45] = 0xF0; mem[46] = 0x90; mem[47] = 0xF0; mem[48] = 0x10; mem[49] = 0xF0;
    // glyph A
    mem[50] = 0xF0; mem[51] = 0x90; mem[52] = 0xF0; mem[53] = 0x90; mem[54] = 0x90;
    // glyph B
    mem[55] = 0xE0; mem[56] = 0x90; mem[57] = 0xE0; mem[58] = 0x90; mem[59] = 0xE0;
    // glyph C
    mem[60] = 0xF0; mem[61] = 0x80; mem[62] = 0x80; mem[63] = 0x80; mem[64] = 0xF0;
    // glyph D
    mem[65] = 0xE0; mem[66] = 0x90; mem[67] = 0x90; mem[68] = 0x90; mem[69] = 0xE0;
    // glyph E
    mem[70] = 0xF0; mem[71] = 0x80; mem[72] = 0xF0; mem[73] = 0x80; mem[74] = 0xF0;
    // glyph F
    mem[75] = 0xF0; mem[76] = 0x80; mem[77] = 0xF0; mem[78] = 0x80; mem[79] = 0x80;
}

impl Chip8 {
    /// A freshly constructed machine: the font in memory, everything else
    /// zeroed, the program counter at the program start address.
    pub fn new() -> (r: Chip8)
        ensures
            r@.wf(),
            r@.pc == PC_START,
            r@.index == 0,
            r@.sp == 0,
            r@.delay == 0,
            r@.sound == 0,
            !r@.waiting,
            r@.wait_reg == 0,
            forall|i: int| 0 <= i < REGISTER_NUM ==> r@.reg[i] == 0,
            forall|i: int| 0 <= i < KEY_NUM ==> r@.key[i] == 0,
            forall|c: int| 0 <= c < DISPLAY_CELLS ==> r@.display[c] == 0,
            forall|i: int| 0 <= i < STACK_LAYERS ==> r@.stack[i] == 0,
            forall|a: int| FONTSET_SIZE <= a < MEM_SIZE ==> r@.mem[a] == 0,
    {
        let mut memory = zero_bytes(MEM_SIZE);
        write_font(&mut memory);
        Chip8 {
            memory,
            register: zero_bytes(REGISTER_NUM),
            program_counter: 512,
            index_register: 0,
            display: zero_bytes(DISPLAY_CELLS),
            delay_timer: 0,
            sound_timer: 0,
            stack: zero_words(STACK_LAYERS),
            stack_pointer: 0,
            key: zero_bytes(KEY_NUM),
            wait_for_key: false,
            wait_for_key_register: 0,
        }
    }

    /// The virtual screen, column-major: cell (x, y) at index x * 32 + y,
    /// each cell 0 or 1.
    pub fn display(&self) -> (r: &Vec<u8>)
        ensures
            r@ == self@.display,
    {
        &self.display
    }

    /// The whole memory, for inspection.
    pub fn memory(&self) -> (r: &Vec<u8>)
        ensures
            r@ == self@.mem,
    {
        &self.memory
    }

    /// One general-purpose register.
    pub fn register(&self, i: usize) -> (r: u8)
        requires
            self@.wf(),
            i < REGISTER_NUM,
        ensures
            r == self@.reg[i as int],
    {
        self.register[i]
    }

    /// The program counter.
    pub fn program_counter(&self) -> (r: u16)
        ensures
            r == self@.pc,
    {
        self.program_counter
    }

    /// The index register.
    pub fn index_register(&self) -> (r: u16)
        ensures
            r == self@.index,
    {
        self.index_register
    }

    /// The delay timer.
    pub fn delay_timer(&self) -> (r: u8)
        ensures
            r == self@.delay,
    {
        self.delay_timer
    }

    /// The sound timer.
    pub fn sound_timer(&self) -> (r: u8)
        ensures
            r == self@.sound,
    {
        self.sound_timer
    }

    /// Whether the machine is suspended waiting for a key press.
    pub fn is_waiting(&self) -> (r: bool)
        ensures
            r == self@.waiting,
    {
        self.wait_for_key
    }

    /// Copies the program verbatim into memory at the start address, after
    /// checking that it fits; on failure the machine is untouched.
    pub fn load(&mut self, program: &Vec<u8>) -> (r: Result<(), LoadError>)
        requires
            old(self)@.wf(),
        ensures
            final(self)@.wf(),
            r is Ok <==> load_ok(program@),
            load_ok(program@) ==> final(self)@ == (Chip8View {
                mem: load_mem(old(self)@.mem, program@),
                ..old(self)@
            }),
            !load_ok(program@) ==> final(self)@ == old(self)@,
    {
        if program.len() > MEM_SIZE - (FONTSET_SIZE + DISPLAY_SIZE + STACK_SIZE)
            || program.len() > MEM_SIZE - PC_START {
            return Err(LoadError::CapacityExceeded);
        }
        let n = program.len();
        let mut i: usize = 0;
        while i < n
            invariant
                n == program@.len() <= MEM_SIZE - PC_START,
                i <= n,
                self.memory@.len() == MEM_SIZE,
                forall|a: int| PC_START <= a < PC_START + i ==>
                    self.memory@[a] == program@[a - PC_START],
                forall|a: int| 0 <= a < MEM_SIZE && !(PC_START <= a < PC_START + i) ==>
                    self.memory@[a] == old(self).memory@[a],
                self.register == old(self).register,
                self.program_counter == old(self).program_counter,
                self.index_register == old(self).index_register,
                self.display == old(self).display,
                self.delay_timer == old(self).delay_timer,
                self.sound_timer == old(self).sound_timer,
                self.stack == old(self).stack,
                self.stack_pointer == old(self).stack_pointer,
                self.key == old(self).key,
                self.wait_for_key == old(self).wait_for_key,
                self.wait_for_key_register == old(self).wait_for_key_register,
            decreases n - i,
        {
            self.memory[PC_START + i] = program[i];
            i += 1;
        }
        proof {
            assert(self@.mem =~= load_mem(old(self)@.mem, program@));
            assert(self@ =~= Chip8View { mem: load_mem(old(self)@.mem, program@), ..old(self)@ });
        }
        Ok(())
    }

    /// Resets every key of the latch to unpressed.
    pub fn clear_keys(&mut self)
        requires
            old(self)@.wf(),
        ensures
            final(self)@.wf(),
            final(self)@ == (Chip8View {
                key: Seq::new(KEY_NUM as nat, |i: int| 0u8),
                ..old(self)@
            }),
    {
        let mut i: usize = 0;
        while i < KEY_NUM
            invariant
                i <= KEY_NUM,
                self.key@.len() == KEY_NUM,
                forall|k: int| 0 <= k < i ==> self.key@[k] == 0,
                forall|k: int| i <= k < KEY_NUM ==> self.key@[k] == old(self).key@[k],
                self.memory == old(self).memory,
                self.register == old(self).register,
                self.program_counter == old(self).program_counter,
                self.index_register == old(self).index_register,
                self.display == old(self).display,
                self.delay_timer == old(self).delay_timer,
                self.sound_timer == old(self).sound_timer,
                self.stack == old(self).stack,
                self.stack_pointer == old(self).stack_pointer,
                self.wait_for_key == old(self).wait_for_key,
                self.wait_for_key_register == old(self).wait_for_key_register,
            decreases KEY_NUM - i,
        {
            self.key[i] = 0;
            i += 1;
        }
        proof {
            assert(self@.key =~= Seq::new(KEY_NUM as nat, |i: int| 0u8));
            assert(self@ =~= Chip8View { key: Seq::new(KEY_NUM as nat, |i: int| 0u8), ..old(self)@ });
        }
    }

    /// Marks one key of the latch as pressed.
    pub fn register_key(&mut self, key: u8)
        requires
            old(self)@.wf(),
            key < KEY_NUM,
        ensures
            final(self)@.wf(),
            final(self)@ == (Chip8View {
                key: old(self)@.key.update(key as int, 1u8),
                ..old(self)@
            }),
    {
        self.key[key as usize] = 1;
    }

    /// Sets every display cell to 0.
    fn clear_display(&mut self)
        requires
            old(self)@.wf(),
        ensures
            final(self)@.wf(),
            final(self)@ == (Chip8View {
                display: Seq::new(DISPLAY_CELLS as nat, |c: int| 0u8),
                ..old(self)@
            }),
    {
        let mut c: usize = 0;
        while c < DISPLAY_CELLS
            invariant
                c <= DISPLAY_CELLS,
                self.display@.len() == DISPLAY_CELLS,
                forall|k: int| 0 <= k < c ==> self.display@[k] == 0,
                self@ == (Chip8View { display: self@.display, ..old(self)@ }),
            decreases DISPLAY_CELLS - c,
        {
            self.display[c] = 0;
            c += 1;
        }
        proof {
            assert(self@.display =~= Seq::new(DISPLAY_CELLS as nat, |c: int| 0u8));
            assert(self@ =~= Chip8View {
                display: Seq::new(DISPLAY_CELLS as nat, |c: int| 0u8),
                ..old(self)@
            });
        }
    }

    /// Register-to-register arithmetic (group 8).
    #[verifier::rlimit(50)]
    fn op_alu(&mut self, op: u16) -> (r: Result<StepEvent, StepError>)
        requires
            old(self)@.wf(),
        ensures
            final(self)@.wf(),
            final(self)@ == spec_alu(old(self)@, op).0,
            r == spec_alu(old(self)@, op).1,
    {
        proof {
            lemma_op_fields(op);
        }
        let x: usize = ((op >> 8) & 0xF) as usize;
        let y: usize = ((op >> 4) & 0xF) as usize;
        let sel: u16 = op & 0xF;
        match sel {
            0x0 => {
                let v: u8 = self.register[y];
                self.register[x] = v;
                Ok(StepEvent::Executed)
            }
            0x1 => {
                let v: u8 = self.register[x] | self.register[y];
                self.register[x] = v;
                Ok(StepEvent::Executed)
            }
            0x2 => {
                let v: u8 = self.register[x] & self.register[y];
                self.register[x] = v;
                Ok(StepEvent::Executed)
            }
            0x3 => {
                let v: u8 = self.register[x] ^ self.register[y];
                self.register[x] = v;
                Ok(StepEvent::Executed)
            }
            0x4 => {
                let sum: u16 = self.register[x] as u16 + self.register[y] as u16;
                if sum > 255 {
                    self.register[15] = 1;
                }
                self.register[x] = (sum % 256) as u8;
                Ok(StepEvent::Executed)
            }
            0x5 => {
                let flag: u8 = if self.register[y] > self.register[x] { 0 } else { 1 };
                self.register[15] = flag;
                let a: u16 = self.register[x] as u16;
                let b: u16 = self.register[y] as u16;
                self.register[x] = ((a + 256 - b) % 256) as u8;
                Ok(StepEvent::Executed)
            }
            0x6 => {
                let flag: u8 = self.register[x] & 1;
                self.register[15] = flag;
                let v: u8 = self.register[x];
                self.register[x] = v >> 1u8;
                Ok(StepEvent::Executed)
            }
            0xE => {
                let flag: u8 = (self.register[x] & 0x80) >> 7u8;
                self.register[15] = flag;
                let v: u16 = self.register[x] as u16;
                self.register[x] = ((v * 2) % 256) as u8;
                Ok(StepEvent::Executed)
            }
            _ => Ok(StepEvent::UnknownOpcode(op)),
        }
    }

    /// Timer, wait and register-fill operations (group F).
    fn op_fops(&mut self, op: u16) -> (r: Result<StepEvent, StepError>)
        requires
            old(self)@.wf(),
        ensures
            final(self)@.wf(),
            final(self)@ == spec_fops(old(self)@, op).0,
            r == spec_fops(old(self)@, op).1,
    {
        proof {
            lemma_op_fields(op);
        }
        let x: usize = ((op >> 8) & 0xF) as usize;
        let sel: u8 = (op & 0xFF) as u8;
        match sel {
            0x07 => {
                let v: u8 = self.delay_timer;
                self.register[x] = v;
                Ok(StepEvent::Executed)
            }
            0x0A => {
                self.wait_for_key = true;
                self.wait_for_key_register = x;
                Ok(StepEvent::Executed)
            }
            0x15 => {
                self.delay_timer = self.register[x];
                Ok(StepEvent::Executed)
            }
            0x18 => {
                self.sound_timer = self.register[x];
                Ok(StepEvent::Executed)
            }
            0x1E => {
                let sum: u32 = self.index_register as u32 + self.register[x] as u32;
                self.index_register = (sum % 0x10000) as u16;
                Ok(StepEvent::Executed)
            }
            0x29 => {
                let glyph: u16 = self.register[x] as u16;
                self.index_register = 5 * glyph;
                Ok(StepEvent::Executed)
            }
            0x65 => {
                let idx: usize = self.index_register as usize;
                if idx + x >= MEM_SIZE {
                    return Err(StepError::MemoryOutOfRange);
                }
                let mut i: usize = 0;
                while i <= x
                    invariant
                        x < REGISTER_NUM,
                        i <= x + 1,
                        idx + x < MEM_SIZE,
                        idx == old(self)@.index,
                        self.register@.len() == REGISTER_NUM,
                        self.memory@.len() == MEM_SIZE,
                        forall|k: int| 0 <= k < i ==>
                            self.register@[k] == old(self)@.mem[idx + k],
                        forall|k: int| i <= k < REGISTER_NUM ==>
                            self.register@[k] == old(self)@.reg[k],
                        self@ == (Chip8View { reg: self@.reg, ..old(self)@ }),
                    decreases x + 1 - i,
                {
                    let v: u8 = self.memory[idx + i];
                    self.register[i] = v;
                    i += 1;
                }
                proof {
                    assert(self@.reg =~= Seq::new(REGISTER_NUM as nat, |k: int| {
                        if 0 <= k <= op_x(op) as int {
                            old(self)@.mem[old(self)@.index + k]
                        } else {
                            old(self)@.reg[k]
                        }
                    }));
                    assert(self@ =~= spec_fops(old(self)@, op).0);
                }
                Ok(StepEvent::Executed)
            }
            _ => Ok(StepEvent::UnknownOpcode(op)),
        }
    }

    /// The draw instruction (Dxyn): clears the flag register, checks that
    /// every sprite byte lies in memory, then flips the covered in-bounds
    /// cells and reports collisions through the flag register.
    fn op_draw(&mut self, op: u16) -> (r: Result<StepEvent, StepError>)
        requires
            old(self)@.wf(),
        ensures
            final(self)@.wf(),
            final(self)@ == spec_draw(old(self)@, op).0,
            r == spec_draw(old(self)@, op).1,
    {
        proof {
            lemma_op_fields(op);
        }
        let ghost t = old(self)@;
        self.register[15] = 0;
        let xi: usize = ((op >> 8) & 0xF) as usize;
        let yi: usize = ((op >> 4) & 0xF) as usize;
        let x: usize = self.register[xi] as usize;
        let y: usize = self.register[yi] as usize;
        let h: usize = (op & 0xF) as usize;
        let idx: usize = self.index_register as usize;
        proof {
            assert(x == draw_x(t, op) && y == draw_y(t, op) && h == draw_h(t, op));
        }
        let rows: usize = if y >= YPX { 0 } else if h <= YPX - y { h } else { YPX - y };
        proof {
            assert(rows == draw_rows(t, op));
        }
        if rows > 0 && idx + rows > MEM_SIZE {
            proof {
                assert(!draw_mem_ok(t, op));
                assert(self@ =~= spec_draw(t, op).0);
            }
            return Err(StepError::MemoryOutOfRange);
        }
        proof {
            assert(draw_mem_ok(t, op));
        }
        let mut i: usize = y;
        while i < y + h
            invariant
                t.wf(),
                t == old(self)@,
                x == draw_x(t, op),
                y == draw_y(t, op),
                h == draw_h(t, op),
                idx == t.index,
                draw_mem_ok(t, op),
                y <= i <= y + h,
                self.display@.len() == DISPLAY_CELLS,
                self.register@.len() == REGISTER_NUM,
                self.memory@.len() == MEM_SIZE,
                self@ == (Chip8View { reg: self@.reg, display: self@.display, ..t }),
                draw_prefix_display(t, op, self.display@, i as int, x as int),
                self@.reg == t.reg.update(15,
                    if draw_prefix_hit(t, op, i as int, x as int) { 1u8 } else { 0u8 }),
            decreases y + h - i,
        {
            if i < YPX {
                proof {
                    assert(idx + (i - y) < MEM_SIZE);
                }
                let row: u8 = self.memory[idx + (i - y)];
                let mut j: usize = x;
                while j < x + 8
                    invariant
                        t.wf(),
                        t == old(self)@,
                        x == draw_x(t, op),
                        y == draw_y(t, op),
                        h == draw_h(t, op),
                        idx == t.index,
                        draw_mem_ok(t, op),
                        y <= i < y + h,
                        i < YPX,
                        row == t.mem[idx + (i - y)],
                        x <= j <= x + 8,
                        self.display@.len() == DISPLAY_CELLS,
                        self.register@.len() == REGISTER_NUM,
                        self.memory@.len() == MEM_SIZE,
                        self@ == (Chip8View { reg: self@.reg, display: self@.display, ..t }),
                        draw_prefix_display(t, op, self.display@, i as int, j as int),
                        self@.reg == t.reg.update(15,
                            if draw_prefix_hit(t, op, i as int, j as int) { 1u8 } else { 0u8 }),
                    decreases x + 8 - j,
                {
                    let ghost pre = self.display@;
                    let ghost prehit = draw_prefix_hit(t, op, i as int, j as int);
                    if j < XPX {
                        let off: u8 = (j - x) as u8;
                        if row & (0x80u8 >> off) != 0 {
                            proof {
                                assert(draw_lit(t, op, j as int, i as int));
                            }
                            let c: usize = j * YPX + i;
                            proof {
                                assert(c as int / YPX as int == j as int
                                    && c as int % YPX as int == i as int);
                                assert(pre[c as int] == t.display[c as int]);
                            }
                            let cell: u8 = self.display[c];
                            if cell == 1 {
                                self.register[15] = 1;
                            }
                            self.display[c] = if cell == 1 { 0 } else { 1 };
                            proof {
                                assert(self.display@[c as int] == flip(t.display[c as int]));
                                if cell == 1 {
                                    assert(draw_prefix_hit(t, op, i as int, j as int + 1));
                                } else {
                                    assert(!draw_prefix_hit(t, op, i as int, j as int + 1)
                                        == !prehit) by {
                                        if draw_prefix_hit(t, op, i as int, j as int + 1) {
                                            let (jj, ii) = choose|jj: int, ii: int|
                                                #[trigger] draw_lit(t, op, jj, ii)
                                                && (ii < i as int
                                                    || (ii == i as int && jj < j as int + 1))
                                                && t.display[jj * (YPX as int) + ii] == 1;
                                            if ii == i as int && jj == j as int {
                                                assert(t.display[c as int] == cell);
                                            } else {
                                                assert(draw_prefix_hit(t, op, i as int, j as int));
                                            }
                                        }
                                    }
                                }
                            }
                        } else {
                            proof {
                                assert(!draw_lit(t, op, j as int, i as int));
                            }
                        }
                    } else {
                        proof {
                            assert(!draw_lit(t, op, j as int, i as int));
                        }
                    }
                    proof {
                        if !draw_lit(t, op, j as int, i as int) {
                            assert(draw_prefix_hit(t, op, i as int, j as int + 1) == prehit) by {
                                if draw_prefix_hit(t, op, i as int, j as int + 1) {
                                    let (jj, ii) = choose|jj: int, ii: int|
                                        #[trigger] draw_lit(t, op, jj, ii)
                                        && (ii < i as int || (ii == i as int && jj < j as int + 1))
                                        && t.display[jj * (YPX as int) + ii] == 1;
                                    if !(ii == i as int && jj == j as int) {
                                        assert(draw_prefix_hit(t, op, i as int, j as int));
                                    }
                                }
                            }
                        }
                        assert forall|c: int| 0 <= c < DISPLAY_CELLS implies
                            #[trigger] self.display@[c] == ({
                                let jj = c / (YPX as int);
                                let ii = c % (YPX as int);
                                if draw_lit(t, op, jj, ii)
                                    && (ii < i as int || (ii == i as int && jj < j as int + 1)) {
                                    flip(t.display[c])
                                } else {
                                    t.display[c]
                                }
                            })
                        by {
                            let jj = c / (YPX as int);
                            let ii = c % (YPX as int);
                            assert(c == jj * (YPX as int) + ii);
                            if jj == j as int && ii == i as int {
                                assert(c == j as int * (YPX as int) + i as int);
                            }
                        }
                        assert(draw_prefix_display(t, op, self.display@, i as int, j as int + 1));
                    }
                    j += 1;
                }
                proof {
                    assert forall|c: int| 0 <= c < DISPLAY_CELLS implies
                        #[trigger] self.display@[c] == ({
                            let jj = c / (YPX as int);
                            let ii = c % (YPX as int);
                            if draw_lit(t, op, jj, ii) && ii < i as int + 1 {
                                flip(t.display[c])
                            } else {
                                t.display[c]
                            }
                        })
                    by {
                        let jj = c / (YPX as int);
                        let ii = c % (YPX as int);
                        if draw_lit(t, op, jj, ii) {
                            assert(jj < x as int + 8);
                        }
                    }
                    assert(draw_prefix_display(t, op, self.display@, i as int + 1, x as int));
                    assert(draw_prefix_hit(t, op, i as int + 1, x as int)
                        == draw_prefix_hit(t, op, i as int, x as int + 8)) by {
                        if draw_prefix_hit(t, op, i as int + 1, x as int) {
                            let (jj, ii) = choose|jj: int, ii: int|
                                #[trigger] draw_lit(t, op, jj, ii)
                                && (ii < i as int + 1 || (ii == i as int + 1 && jj < x as int))
                                && t.display[jj * (YPX as int) + ii] == 1;
                            assert(jj < x as int + 8);
                            assert(draw_prefix_hit(t, op, i as int, x as int + 8));
                        }
                        if draw_prefix_hit(t, op, i as int, x as int + 8) {
                            let (jj, ii) = choose|jj: int, ii: int|
                                #[trigger] draw_lit(t, op, jj, ii)
                                && (ii < i as int || (ii == i as int && jj < x as int + 8))
                                && t.display[jj * (YPX as int) + ii] == 1;
                            assert(draw_prefix_hit(t, op, i as int + 1, x as int));
                        }
                    }
                }
            } else {
                proof {
                    assert forall|c: int| 0 <= c < DISPLAY_CELLS implies
                        #[trigger] self.display@[c] == ({
                            let jj = c / (YPX as int);
                            let ii = c % (YPX as int);
                            if draw_lit(t, op, jj, ii) && ii < i as int + 1 {
                                flip(t.display[c])
                            } else {
                                t.display[c]
                            }
                        })
                    by {
                        let jj = c / (YPX as int);
                        let ii = c % (YPX as int);
                        if draw_lit(t, op, jj, ii) {
                            assert(ii < YPX as int);
                        }
                    }
                    assert(draw_prefix_display(t, op, self.display@, i as int + 1, x as int));
                    assert(draw_prefix_hit(t, op, i as int + 1, x as int)
                        == draw_prefix_hit(t, op, i as int, x as int)) by {
                        if draw_prefix_hit(t, op, i as int + 1, x as int) {
                            let (jj, ii) = choose|jj: int, ii: int|
                                #[trigger] draw_lit(t, op, jj, ii)
                                && (ii < i as int + 1 || (ii == i as int + 1 && jj < x as int))
                                && t.display[jj * (YPX as int) + ii] == 1;
                            assert(ii < YPX as int);
                            assert(draw_prefix_hit(t, op, i as int, x as int));
                        }
                    }
                }
            }
            i += 1;
        }
        proof {
            assert forall|c: int| 0 <= c < DISPLAY_CELLS implies
                #[trigger] self.display@[c] == draw_display(t, op)[c]
            by {
                let jj = c / (YPX as int);
                let ii = c % (YPX as int);
                if draw_lit(t, op, jj, ii) {
                    assert(ii < i as int);
                }
            }
            assert(self@.display =~= draw_display(t, op));
            assert(draw_collides(t, op) == draw_prefix_hit(t, op, i as int, x as int)) by {
                if draw_collides(t, op) {
                    let (jj, ii) = choose|jj: int, ii: int|
                        #[trigger] draw_lit(t, op, jj, ii)
                        && t.display[jj * (YPX as int) + ii] == 1;
                    assert(ii < i as int);
                    assert(draw_prefix_hit(t, op, i as int, x as int));
                }
                if draw_prefix_hit(t, op, i as int, x as int) {
                    let (jj, ii) = choose|jj: int, ii: int|
                        #[trigger] draw_lit(t, op, jj, ii)
                        && (ii < i as int || (ii == i as int && jj < x as int))
                        && t.display[jj * (YPX as int) + ii] == 1;
                    assert(draw_collides(t, op));
                }
            }
            assert(self@ =~= spec_draw(t, op).0);
        }
        Ok(StepEvent::Executed)
    }

    /// Advances the machine by one unit of work: while waiting for a key the
    /// step consumes the lowest pressed key or does nothing; otherwise it
    /// fetches one instruction word, advances the program counter past it,
    /// ticks both timers and executes the word's effect. The whole behaviour
    /// is pinned to [`step_state`] and [`step_result`].
    pub fn emulate(&mut self) -> (r: Result<StepEvent, StepError>)
        requires
            old(self)@.wf(),
        ensures
            final(self)@.wf(),
            final(self)@ == step_state(old(self)@),
            r == step_result(old(self)@),
    {
        if self.wait_for_key {
            let mut k: usize = 0;
            while k < KEY_NUM
                invariant
                    old(self)@.wf(),
                    old(self)@.waiting,
                    k <= KEY_NUM,
                    self@ == old(self)@,
                    self.key@.len() == KEY_NUM,
                    self.register@.len() == REGISTER_NUM,
                    0 <= self.wait_for_key_register < REGISTER_NUM,
                    forall|j: int| 0 <= j < k ==> (#[trigger] self.key@[j]) != 1,
                decreases KEY_NUM - k,
            {
                if self.key[k] == 1 {
                    proof {
                        lemma_first_pressed_from(old(self)@.key, k as int);
                        assert(first_pressed_from(old(self)@.key, 0) == k);
                        assert(any_pressed(old(self)@.key));
                    }
                    self.wait_for_key = false;
                    let wr: usize = self.wait_for_key_register;
                    self.register[wr] = k as u8;
                    proof {
                        assert(self@ =~= step_state(old(self)@));
                    }
                    return Ok(StepEvent::KeyCaptured(k as u8));
                }
                k += 1;
            }
            proof {
                assert(!any_pressed(old(self)@.key));
            }
            return Ok(StepEvent::WaitingForKey);
        }
        if self.program_counter as usize + 1 >= MEM_SIZE {
            return Err(StepError::PcOutOfRange);
        }
        let pc: usize = self.program_counter as usize;
        let hi: u8 = self.memory[pc];
        let lo: u8 = self.memory[pc + 1];
        let op: u16 = ((hi as u16) << 8u16) | (lo as u16);
        proof {
            assert(op == opcode_at(old(self)@));
            lemma_op_fields(op);
        }
        self.program_counter = self.program_counter + 2;
        if self.delay_timer > 0 {
            self.delay_timer = self.delay_timer - 1;
        }
        if self.sound_timer > 0 {
            self.sound_timer = self.sound_timer - 1;
        }
        let ghost t = tick(old(self)@);
        proof {
            assert(self@ =~= t);
        }
        let group: u16 = op >> 12u16;
        let x: usize = ((op >> 8) & 0xF) as usize;
        proof {
            assert(op & 0xFF < 256) by (bit_vector);
        }
        let kk: u8 = (op & 0xFF) as u8;
        let nnn: u16 = op & 0x0FFF;
        match group {
            0x0 => {
                if op == 0x00E0 {
                    self.clear_display();
                    Ok(StepEvent::Executed)
                } else if op == 0x00EE {
                    if self.stack_pointer == 0 {
                        Err(StepError::StackUnderflow)
                    } else {
                        let sp: usize = self.stack_pointer;
                        self.program_counter = self.stack[sp];
                        self.stack_pointer = sp - 1;
                        Ok(StepEvent::Executed)
                    }
                } else {
                    Ok(StepEvent::UnknownOpcode(op))
                }
            }
            0x1 => {
                self.program_counter = nnn;
                Ok(StepEvent::Executed)
            }
            0x2 => {
                if self.stack_pointer >= STACK_LAYERS - 1 {
                    Err(StepError::StackOverflow)
                } else {
                    let sp: usize = self.stack_pointer + 1;
                    self.stack_pointer = sp;
                    let ret: u16 = self.program_counter;
                    self.stack[sp] = ret;
                    self.program_counter = nnn;
                    Ok(StepEvent::Executed)
                }
            }
            0x3 => {
                if self.register[x] == kk {
                    self.program_counter = self.program_counter + 2;
                }
                Ok(StepEvent::Executed)
            }
            0x4 => {
                if self.register[x] != kk {
                    self.program_counter = self.program_counter + 2;
                }
                Ok(StepEvent::Executed)
            }
            0x6 => {
                self.register[x] = kk;
                Ok(StepEvent::Executed)
            }
            0x7 => {
                let sum: u16 = self.register[x] as u16 + kk as u16;
                self.register[x] = (sum % 256) as u8;
                Ok(StepEvent::Executed)
            }
            0x8 => self.op_alu(op),
            0xA => {
                self.index_register = nnn;
                Ok(StepEvent::Executed)
            }
            0xD => self.op_draw(op),
            0xE => {
                let code: u8 = self.register[x];
                if kk == 0x9E {
                    if code as usize >= KEY_NUM {
                        Err(StepError::KeyOutOfRange)
                    } else {
                        if self.key[code as usize] == 1 {
                            self.program_counter = self.program_counter + 2;
                        }
                        Ok(StepEvent::Executed)
                    }
                } else if kk == 0xA1 {
                    if code as usize >= KEY_NUM {
                        Err(StepError::KeyOutOfRange)
                    } else {
                        if self.key[code as usize] != 1 {
                            self.program_counter = self.program_counter + 2;
                        }
                        Ok(StepEvent::Executed)
                    }
                } else {
                    Ok(StepEvent::UnknownOpcode(op))
                }
            }
            0xF => self.op_fops(op),
            _ => Ok(StepEvent::UnknownOpcode(op)),
        }
    }
}

/// Progress of a draw: the display `d` agrees with the final picture on every
/// cell the nested loops have already visited (rows before `i`, and columns
/// before `j` of row `i`) and with the pre-draw display on every other cell.
spec fn draw_prefix_display(t: Chip8View, op: u16, d: Seq<u8>, i: int, j: int) -> bool {
    forall|c: int| 0 <= c < DISPLAY_CELLS ==> (#[trigger] d[c]) == ({
        let jj = c / (YPX as int);
        let ii = c % (YPX as int);
        if draw_lit(t, op, jj, ii) && (ii < i || (ii == i && jj < j)) {
            flip(t.display[c])
        } else {
            t.display[c]
        }
    })
}

/// Progress of a draw: whether any cell visited so far collided.
spec fn draw_prefix_hit(t: Chip8View, op: u16, i: int, j: int) -> bool {
    exists|jj: int, ii: int| #[trigger] draw_lit(t, op, jj, ii)
        && (ii < i || (ii == i && jj < j))
        && t.display[jj * (YPX as int) + ii] == 1
}

} // verus!
